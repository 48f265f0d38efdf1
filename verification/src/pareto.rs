//! Pareto pruning of the branches of the quantum collapse, and of the
//! candidates once collapsed: only the cost vectors that no other vector
//! dominates survive.

use crate::combinatore::FactId;
use crate::reale::{chiave, e_nan, le, lt, minore, minore_uguale, nan, Reale};
use vstd::prelude::*;

verus! {

/// The three channels that feed the action of a branch.
#[derive(Clone, Copy, Debug, PartialEq, Eq, Structural)]
pub enum BranchType {
    /// From the derivatives of the motion (velocity, acceleration, curvature).
    Inertial,
    /// From the metric distance and density of the graph nodes.
    Geometric,
    /// From the token-by-token MaxSim score.
    SemanticColbert,
}

/// A concurrent branch in superposition. The real-valued fields are the bits
/// of the double that holds the branch's single-precision value.
#[derive(Clone, Copy, Debug)]
pub struct WalkBranch {
    /// The channel that produced the branch.
    pub branch_type: BranchType,
    /// The candidate node the branch leads to.
    pub candidate_id: Option<FactId>,
    /// The action `S` of the branch.
    pub action: Reale,
    /// The probability amplitude `psi`.
    pub amplitude: Reale,
    /// Raw inertial cost.
    pub s_inertial: Reale,
    /// Raw geometric cost.
    pub s_geometric: Reale,
    /// Raw colbert cost `1 - MaxSim`.
    pub s_colbert: Reale,
}

impl WalkBranch {
    /// A branch towards `candidate_id` with its action, amplitude and the
    /// three raw costs.
    pub fn with_costs(
        branch_type: BranchType,
        candidate_id: FactId,
        action: Reale,
        amplitude: Reale,
        s_inertial: Reale,
        s_geometric: Reale,
        s_colbert: Reale,
    ) -> (r: Self)
        ensures
            r.branch_type == branch_type,
            r.candidate_id == Some(candidate_id),
            r.action == action,
            r.amplitude == amplitude,
            r.s_inertial == s_inertial,
            r.s_geometric == s_geometric,
            r.s_colbert == s_colbert,
    {
        WalkBranch {
            branch_type,
            candidate_id: Some(candidate_id),
            action,
            amplitude,
            s_inertial,
            s_geometric,
            s_colbert,
        }
    }
}

/// Three costs, to be minimized.
pub struct TreCosti {
    pub inerziale: Reale,
    pub geometrico: Reale,
    pub colbert: Reale,
}

/// `a` dominates `b` on costs: lower or equal on all three, strictly lower
/// on one.
pub open spec fn costi_dominano(a: TreCosti, b: TreCosti) -> bool {
    &&& minore_uguale(a.inerziale, b.inerziale)
    &&& minore_uguale(a.geometrico, b.geometrico)
    &&& minore_uguale(a.colbert, b.colbert)
    &&& (minore(a.inerziale, b.inerziale) || minore(a.geometrico, b.geometrico) || minore(
        a.colbert,
        b.colbert,
    ))
}

/// Some element of `s` dominates `x`.
pub open spec fn dominato_in<T>(s: Seq<T>, costo: spec_fn(T) -> TreCosti, x: T) -> bool {
    exists|j: int| 0 <= j < s.len() && costi_dominano(costo(s[j]), costo(x))
}

/// The Pareto front of `s`: its elements that no element of `s` dominates,
/// in their order.
pub open spec fn frontiera<T>(s: Seq<T>, costo: spec_fn(T) -> TreCosti) -> Seq<T> {
    s.filter(|x: T| !dominato_in(s, costo, x))
}

/// The cost vector of a branch cost record.
pub open spec fn costi_ramo(c: BranchCostVector) -> TreCosti {
    TreCosti { inerziale: c.s_inertial, geometrico: c.s_geometric, colbert: c.s_colbert }
}

/// The cost vector of a collapsed candidate.
pub open spec fn costi_candidato(c: CandidateCostVector) -> TreCosti {
    TreCosti { inerziale: c.s_inertial, geometrico: c.s_geometric, colbert: c.s_colbert }
}

fn costi_dominano_exec(
    ai: Reale,
    ag: Reale,
    ac: Reale,
    bi: Reale,
    bg: Reale,
    bc: Reale,
) -> (r: bool)
    ensures
        r == costi_dominano(
            TreCosti { inerziale: ai, geometrico: ag, colbert: ac },
            TreCosti { inerziale: bi, geometrico: bg, colbert: bc },
        ),
{
    let i_le = le(ai, bi);
    let g_le = le(ag, bg);
    let c_le = le(ac, bc);
    let strict_better = lt(ai, bi) || lt(ag, bg) || lt(ac, bc);
    i_le && g_le && c_le && strict_better
}

/// The decomposed costs of the three channels for a branch.
#[derive(Clone, Copy, Debug)]
pub struct BranchCostVector {
    pub branch: WalkBranch,
    pub s_inertial: Reale,
    pub s_geometric: Reale,
    pub s_colbert: Reale,
}

impl BranchCostVector {
    /// A cost record for `branch`.
    pub fn new(branch: WalkBranch, s_inertial: Reale, s_geometric: Reale, s_colbert: Reale) -> (r:
        Self)
        ensures
            r.branch == branch,
            r.s_inertial == s_inertial,
            r.s_geometric == s_geometric,
            r.s_colbert == s_colbert,
    {
        BranchCostVector { branch, s_inertial, s_geometric, s_colbert }
    }

    /// `true` when `self` Pareto-dominates `other`: lower or equal on all
    /// three costs and strictly lower on at least one.
    pub fn dominates(&self, other: &Self) -> (r: bool)
        ensures
            r == costi_dominano(costi_ramo(*self), costi_ramo(*other)),
    {
        costi_dominano_exec(
            self.s_inertial,
            self.s_geometric,
            self.s_colbert,
            other.s_inertial,
            other.s_geometric,
            other.s_colbert,
        )
    }
}

/// The aggregated costs of a candidate after the collapse.
#[derive(Clone, Copy, Debug, PartialEq, Eq)]
pub struct CandidateCostVector {
    pub candidate_id: FactId,
    pub s_inertial: Reale,
    pub s_geometric: Reale,
    pub s_colbert: Reale,
}

impl CandidateCostVector {
    /// A cost record for the candidate `candidate_id`.
    pub fn new(candidate_id: FactId, s_inertial: Reale, s_geometric: Reale, s_colbert: Reale) -> (r:
        Self)
        ensures
            r == (CandidateCostVector { candidate_id, s_inertial, s_geometric, s_colbert }),
    {
        CandidateCostVector { candidate_id, s_inertial, s_geometric, s_colbert }
    }

    /// `true` when `self` Pareto-dominates `other`.
    pub fn dominates(&self, other: &Self) -> (r: bool)
        ensures
            r == costi_dominano(costi_candidato(*self), costi_candidato(*other)),
    {
        costi_dominano_exec(
            self.s_inertial,
            self.s_geometric,
            self.s_colbert,
            other.s_inertial,
            other.s_geometric,
            other.s_colbert,
        )
    }
}

/// No cost vector dominates itself.
proof fn nessuno_domina_se_stesso(a: TreCosti)
    ensures
        !costi_dominano(a, a),
{
}

/// Keeps only the branches on the Pareto front, in their input order.
pub fn estrai_frontiera_pareto(branches: &[BranchCostVector]) -> (r: Vec<BranchCostVector>)
    ensures
        r@ == frontiera(branches@, |c: BranchCostVector| costi_ramo(c)),
{
    let ghost s = branches@;
    let ghost costo = |c: BranchCostVector| costi_ramo(c);
    let ghost pred = |x: BranchCostVector| !dominato_in(s, costo, x);
    let mut pareto_front: Vec<BranchCostVector> = Vec::new();
    let n = branches.len();
    let mut i: usize = 0;
    while i < n
        invariant
            n == s.len(),
            s == branches@,
            pred == (|x: BranchCostVector| !dominato_in(s, costo, x)),
            costo == (|c: BranchCostVector| costi_ramo(c)),
            0 <= i <= n,
            pareto_front@ == s.take(i as int).filter(pred),
        decreases n - i,
    {
        let candidate = branches[i];
        let mut is_dominated = false;
        let mut j: usize = 0;
        while j < n
            invariant
                n == s.len(),
                s == branches@,
                0 <= i < n,
                0 <= j <= n,
                candidate == s[i as int],
                costo == (|c: BranchCostVector| costi_ramo(c)),
                is_dominated == exists|k: int|
                    0 <= k < j && costi_dominano(costo(s[k]), costo(candidate)),
            decreases n - j,
        {
            if i != j && branches[j].dominates(&candidate) {
                is_dominated = true;
            }
            proof {
                nessuno_domina_se_stesso(costi_ramo(candidate));
            }
            j += 1;
        }
        proof {
            assert(is_dominated == dominato_in(s, costo, candidate));
            assert(s.take(i + 1).drop_last() =~= s.take(i as int));
            reveal_with_fuel(Seq::filter, 1);
        }
        if !is_dominated {
            pareto_front.push(candidate);
        }
        i += 1;
    }
    proof {
        assert(s.take(n as int) =~= s);
    }
    pareto_front
}

/// Keeps only the collapsed candidates on the Pareto front, in their input
/// order. Meant for after the collapse, on the aggregated costs.
pub fn estrai_frontiera_pareto_sui_candidati(candidates: &[CandidateCostVector]) -> (r: Vec<
    CandidateCostVector,
>)
    ensures
        r@ == frontiera(candidates@, |c: CandidateCostVector| costi_candidato(c)),
{
    let ghost s = candidates@;
    let ghost costo = |c: CandidateCostVector| costi_candidato(c);
    let ghost pred = |x: CandidateCostVector| !dominato_in(s, costo, x);
    let mut pareto_front: Vec<CandidateCostVector> = Vec::new();
    let n = candidates.len();
    let mut i: usize = 0;
    while i < n
        invariant
            n == s.len(),
            s == candidates@,
            pred == (|x: CandidateCostVector| !dominato_in(s, costo, x)),
            costo == (|c: CandidateCostVector| costi_candidato(c)),
            0 <= i <= n,
            pareto_front@ == s.take(i as int).filter(pred),
        decreases n - i,
    {
        let candidate = candidates[i];
        let mut is_dominated = false;
        let mut j: usize = 0;
        while j < n
            invariant
                n == s.len(),
                s == candidates@,
                0 <= i < n,
                0 <= j <= n,
                candidate == s[i as int],
                costo == (|c: CandidateCostVector| costi_candidato(c)),
                is_dominated == exists|k: int|
                    0 <= k < j && costi_dominano(costo(s[k]), costo(candidate)),
            decreases n - j,
        {
            if i != j && candidates[j].dominates(&candidate) {
                is_dominated = true;
            }
            proof {
                nessuno_domina_se_stesso(costi_candidato(candidate));
            }
            j += 1;
        }
        proof {
            assert(is_dominated == dominato_in(s, costo, candidate));
            assert(s.take(i + 1).drop_last() =~= s.take(i as int));
            reveal_with_fuel(Seq::filter, 1);
        }
        if !is_dominated {
            pareto_front.push(candidate);
        }
        i += 1;
    }
    proof {
        assert(s.take(n as int) =~= s);
    }
    pareto_front
}

/// Below this number of branches the adaptive pruning always extracts the
/// full front.
pub const SOGLIA_ADATTIVA_DEFAULT: usize = 256;

/// Adaptive pruning: with at most `soglia` branches, or when the branches
/// are spread out (`dispersi`: their normalized total cost variance reaches
/// the direct-collapse threshold), the Pareto front is extracted; otherwise
/// every branch is kept for a direct collapse.
pub fn estrai_frontiera_pareto_adattivo(
    branches: &[BranchCostVector],
    soglia: usize,
    dispersi: bool,
) -> (r: Vec<BranchCostVector>)
    ensures
        (branches.len() <= soglia || dispersi) ==> r@ == frontiera(
            branches@,
            |c: BranchCostVector| costi_ramo(c),
        ),
        !(branches.len() <= soglia || dispersi) ==> r@ == branches@,
{
    if branches.len() <= soglia {
        estrai_frontiera_pareto(branches)
    } else if dispersi {
        estrai_frontiera_pareto(branches)
    } else {
        let mut tutti: Vec<BranchCostVector> = Vec::new();
        let mut i: usize = 0;
        while i < branches.len()
            invariant
                0 <= i <= branches.len(),
                tutti@ == branches@.take(i as int),
            decreases branches.len() - i,
        {
            tutti.push(branches[i]);
            i += 1;
            proof {
                assert(tutti@ =~= branches@.take(i as int));
            }
        }
        proof {
            assert(branches@.take(branches.len() as int) =~= branches@);
        }
        tutti
    }
}

/// A branch takes part in the collapse: it leads to a candidate, its action
/// does not exceed the divergence threshold, and neither its action nor its
/// amplitude is NaN (an unknown state is incoherent).
pub open spec fn ramo_coerente(b: WalkBranch, soglia: Reale) -> bool {
    &&& b.candidate_id is Some
    &&& !minore(soglia, b.action)
    &&& !e_nan(b.action)
    &&& !e_nan(b.amplitude)
}

/// Whether a branch survives the decoherence filter of the collapse.
pub fn ramo_sopravvive(b: &WalkBranch, soglia: Reale) -> (r: bool)
    ensures
        r == ramo_coerente(*b, soglia),
{
    b.candidate_id.is_some() && !lt(soglia, b.action) && !nan(b.action) && !nan(b.amplitude)
}

/// A branch of the group of candidate `c` that may represent it: its action
/// and amplitude are not NaN.
pub open spec fn del_gruppo(b: WalkBranch, c: FactId) -> bool {
    b.candidate_id == Some(c) && !e_nan(b.action) && !e_nan(b.amplitude)
}

/// The representative of the winning candidate: the index of the first
/// branch of least action in its group, `None` when the group is empty.
pub fn rappresentante(branches: &[WalkBranch], vincitore: FactId) -> (r: Option<usize>)
    ensures
        r is None <==> forall|j: int|
            0 <= j < branches@.len() ==> !del_gruppo(#[trigger] branches@[j], vincitore),
        r matches Some(i) ==> {
            &&& i < branches@.len()
            &&& del_gruppo(branches@[i as int], vincitore)
            &&& forall|j: int|
                0 <= j < branches@.len() && del_gruppo(#[trigger] branches@[j], vincitore)
                    ==> minore_uguale(branches@[i as int].action, branches@[j].action)
            &&& forall|j: int|
                0 <= j < i && del_gruppo(#[trigger] branches@[j], vincitore) ==> minore(
                    branches@[i as int].action,
                    branches@[j].action,
                )
        },
{
    let mut migliore: Option<usize> = None;
    let mut j: usize = 0;
    while j < branches.len()
        invariant
            0 <= j <= branches@.len(),
            migliore is None <==> forall|h: int| 0 <= h < j ==> !del_gruppo(#[trigger] branches@[h], vincitore),
            migliore matches Some(i) ==> {
                &&& i < j
                &&& del_gruppo(branches@[i as int], vincitore)
                &&& forall|h: int|
                    0 <= h < j && del_gruppo(#[trigger] branches@[h], vincitore) ==> minore_uguale(
                        branches@[i as int].action,
                        branches@[h].action,
                    )
                &&& forall|h: int|
                    0 <= h < i && del_gruppo(#[trigger] branches@[h], vincitore) ==> minore(
                        branches@[i as int].action,
                        branches@[h].action,
                    )
            },
        decreases branches.len() - j,
    {
        let b = branches[j];
        let nel_gruppo = b.candidate_id == Some(vincitore) && !nan(b.action) && !nan(b.amplitude);
        if nel_gruppo {
            match migliore {
                None => {
                    migliore = Some(j);
                },
                Some(i) => {
                    if lt(b.action, branches[i].action) {
                        migliore = Some(j);
                    }
                },
            }
        }
        j += 1;
    }
    migliore
}

/// The sum of the three cost keys, shifted to be non-negative: it falls
/// strictly along dominance.
pub open spec fn peso_costi(a: TreCosti) -> int {
    chiave(a.inerziale) + chiave(a.geometrico) + chiave(a.colbert) + 3 * 0x8000_0000_0000_0000
}

proof fn dominanza_riduce_il_peso(a: TreCosti, b: TreCosti)
    requires
        costi_dominano(a, b),
    ensures
        peso_costi(a) < peso_costi(b),
        peso_costi(a) >= 0,
{
}

/// Cost dominance is transitive and never reflexive.
pub proof fn costi_dominanza_ordine_stretto(a: TreCosti, b: TreCosti, c: TreCosti)
    ensures
        !costi_dominano(a, a),
        costi_dominano(a, b) ==> !costi_dominano(b, a),
        costi_dominano(a, b) && costi_dominano(b, c) ==> costi_dominano(a, c),
{
}

/// No element of the front is dominated by any element of the input, and
/// every element of the front comes from the input.
pub proof fn frontiera_non_dominata<T>(s: Seq<T>, costo: spec_fn(T) -> TreCosti, k: int)
    requires
        0 <= k < frontiera(s, costo).len(),
    ensures
        !dominato_in(s, costo, frontiera(s, costo)[k]),
        s.contains(frontiera(s, costo)[k]),
{
    let pred = |x: T| !dominato_in(s, costo, x);
    s.lemma_filter_pred(pred, k);
    assert(s.filter(pred).contains(s.filter(pred)[k]));
    s.lemma_filter_contains_rev(pred, s.filter(pred)[k]);
}

/// Every input element is on the front or dominated by an element of the
/// front: pruning never loses a candidate without a better survivor.
pub proof fn frontiera_copre<T>(s: Seq<T>, costo: spec_fn(T) -> TreCosti, i: int)
    requires
        0 <= i < s.len(),
    ensures
        frontiera(s, costo).contains(s[i]) || exists|k: int|
            0 <= k < frontiera(s, costo).len() && costi_dominano(
                costo(frontiera(s, costo)[k]),
                costo(s[i]),
            ),
    decreases peso_costi(costo(s[i])),
{
    let pred = |x: T| !dominato_in(s, costo, x);
    if !dominato_in(s, costo, s[i]) {
        s.lemma_filter_contains(pred, i);
    } else {
        let j = choose|j: int| 0 <= j < s.len() && costi_dominano(costo(s[j]), costo(s[i]));
        dominanza_riduce_il_peso(costo(s[j]), costo(s[i]));
        frontiera_copre(s, costo, j);
        if frontiera(s, costo).contains(s[j]) {
            let k = choose|k: int| 0 <= k < frontiera(s, costo).len() && frontiera(s, costo)[k]
                == s[j];
            assert(costi_dominano(costo(frontiera(s, costo)[k]), costo(s[i])));
        } else {
            let k = choose|k: int|
                0 <= k < frontiera(s, costo).len() && costi_dominano(
                    costo(frontiera(s, costo)[k]),
                    costo(s[j]),
                );
            costi_dominanza_ordine_stretto(
                costo(frontiera(s, costo)[k]),
                costo(s[j]),
                costo(s[i]),
            );
        }
    }
}

/// A filter whose predicate holds on every element changes nothing.
proof fn filtro_neutro<T>(s: Seq<T>, pred: spec_fn(T) -> bool)
    requires
        forall|k: int| 0 <= k < s.len() ==> pred(#[trigger] s[k]),
    ensures
        s.filter(pred) == s,
    decreases s.len(),
{
    reveal_with_fuel(Seq::filter, 1);
    if s.len() > 0 {
        filtro_neutro(s.drop_last(), pred);
        assert(s.drop_last().push(s.last()) =~= s);
    }
}

/// Pruning is idempotent: the front of the front is the front.
pub proof fn frontiera_idempotente<T>(s: Seq<T>, costo: spec_fn(T) -> TreCosti)
    ensures
        frontiera(frontiera(s, costo), costo) == frontiera(s, costo),
{
    let f = frontiera(s, costo);
    let pred2 = |x: T| !dominato_in(f, costo, x);
    assert forall|k: int| 0 <= k < f.len() implies pred2(#[trigger] f[k]) by {
        frontiera_non_dominata(s, costo, k);
        if dominato_in(f, costo, f[k]) {
            let j = choose|j: int| 0 <= j < f.len() && costi_dominano(costo(f[j]), costo(f[k]));
            frontiera_non_dominata(s, costo, j);
            let m = choose|m: int| 0 <= m < s.len() && s[m] == f[j];
            assert(dominato_in(s, costo, f[k]));
        }
    }
    filtro_neutro(f, pred2);
}

} // verus!

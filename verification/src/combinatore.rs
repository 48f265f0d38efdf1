//! The Pareto comparison of the three-channel combiner: two facts seen on
//! the dense, sparse and colbert axes, already normalized.

use crate::reale::{
    e_nan, le, lt, minore, minore_uguale, nan, Reale, MENO_INFINITO, PIU_INFINITO, UNO, ZERO,
};
use vstd::prelude::*;

verus! {

/// The identifier of a fact or of a node of the semantic graph.
pub type FactId = u64;

/// The three similarity metrics of a fact, normalized in `[0, 1]` (or NaN
/// when unknown), each carried as the bits of a double.
#[derive(Clone, Copy, Debug, PartialEq, Eq)]
pub struct NormalizedAxes {
    pub dense: Reale,
    pub sparse: Reale,
    pub colbert: Reale,
}

/// The outcome of a Pareto comparison between two facts.
#[derive(Clone, Copy, Debug, PartialEq, Eq, Structural)]
pub enum ParetoOrder {
    /// `a` dominates `b`: at least as good on every axis, better on one.
    ADominatesB,
    /// `b` dominates `a`.
    BDominatesA,
    /// Neither dominates (incomparable, or equal).
    Incomparable,
}

/// `a` is at least as good as `b` on every axis.
pub open spec fn almeno_su_tutti(a: NormalizedAxes, b: NormalizedAxes) -> bool {
    &&& minore_uguale(b.dense, a.dense)
    &&& minore_uguale(b.sparse, a.sparse)
    &&& minore_uguale(b.colbert, a.colbert)
}

/// `a` is strictly better than `b` on at least one axis.
pub open spec fn meglio_su_uno(a: NormalizedAxes, b: NormalizedAxes) -> bool {
    ||| minore(b.dense, a.dense)
    ||| minore(b.sparse, a.sparse)
    ||| minore(b.colbert, a.colbert)
}

/// `a` Pareto-dominates `b`.
pub open spec fn domina(a: NormalizedAxes, b: NormalizedAxes) -> bool {
    almeno_su_tutti(a, b) && meglio_su_uno(a, b)
}

/// The Pareto order of `lhs` against `rhs`.
pub open spec fn ordine_pareto(lhs: NormalizedAxes, rhs: NormalizedAxes) -> ParetoOrder {
    if domina(lhs, rhs) {
        ParetoOrder::ADominatesB
    } else if domina(rhs, lhs) {
        ParetoOrder::BDominatesA
    } else {
        ParetoOrder::Incomparable
    }
}

/// The order seen from the other side.
pub open spec fn specchio(o: ParetoOrder) -> ParetoOrder {
    match o {
        ParetoOrder::ADominatesB => ParetoOrder::BDominatesA,
        ParetoOrder::BDominatesA => ParetoOrder::ADominatesB,
        ParetoOrder::Incomparable => ParetoOrder::Incomparable,
    }
}

/// Compares two points by Pareto dominance: `lhs` dominates `rhs` when it is
/// greater or equal on all three axes and strictly greater on one.
pub fn pareto_compare(lhs: &NormalizedAxes, rhs: &NormalizedAxes) -> (r: ParetoOrder)
    ensures
        r == ordine_pareto(*lhs, *rhs),
{
    let lhs_ge_rhs = le(rhs.dense, lhs.dense) && le(rhs.sparse, lhs.sparse) && le(
        rhs.colbert,
        lhs.colbert,
    );
    let rhs_ge_lhs = le(lhs.dense, rhs.dense) && le(lhs.sparse, rhs.sparse) && le(
        lhs.colbert,
        rhs.colbert,
    );
    let lhs_gt_rhs = lt(rhs.dense, lhs.dense) || lt(rhs.sparse, lhs.sparse) || lt(
        rhs.colbert,
        lhs.colbert,
    );
    let rhs_gt_lhs = lt(lhs.dense, rhs.dense) || lt(lhs.sparse, rhs.sparse) || lt(
        lhs.colbert,
        rhs.colbert,
    );
    if lhs_ge_rhs && lhs_gt_rhs {
        ParetoOrder::ADominatesB
    } else if rhs_ge_lhs && rhs_gt_lhs {
        ParetoOrder::BDominatesA
    } else {
        ParetoOrder::Incomparable
    }
}

/// Dominance is one-way: no two facts dominate each other.
pub proof fn dominanza_asimmetrica(a: NormalizedAxes, b: NormalizedAxes)
    ensures
        !(domina(a, b) && domina(b, a)),
        !domina(a, a),
{
}

/// The comparison is mirrored: swapping the two facts swaps the verdict
/// (`a` dominates `b` exactly when, seen from `b`, `b` is dominated by `a`).
pub proof fn pareto_antisimmetrico(a: NormalizedAxes, b: NormalizedAxes)
    ensures
        ordine_pareto(b, a) == specchio(ordine_pareto(a, b)),
{
}

/// Dominance is transitive.
pub proof fn dominanza_transitiva(a: NormalizedAxes, b: NormalizedAxes, c: NormalizedAxes)
    requires
        domina(a, b),
        domina(b, c),
    ensures
        domina(a, c),
{
}

/// A value saturated in `[0, 1]`: below 0 it is 0, above 1 it is 1, a NaN
/// stays NaN (an unknown is not an extreme).
pub open spec fn saturato(x: Reale) -> Reale {
    if e_nan(x) {
        x
    } else if minore(x, ZERO) {
        ZERO
    } else if minore(UNO, x) {
        UNO
    } else {
        x
    }
}

/// Saturates a value in `[0, 1]`, keeping NaN: `+inf` becomes 1, `-inf`
/// becomes 0, the rest is clamped.
pub fn satura01(x: Reale) -> (r: Reale)
    ensures
        r == saturato(x),
{
    if nan(x) {
        return x;
    }
    if x == PIU_INFINITO {
        return UNO;
    }
    if x == MENO_INFINITO {
        return ZERO;
    }
    if lt(x, ZERO) {
        ZERO
    } else if lt(UNO, x) {
        UNO
    } else {
        x
    }
}

/// Saturation lands in `[0, 1]` unless the value is NaN, keeps NaN, and
/// never reverses the order of two values.
pub proof fn saturazione_monotona(x: Reale, y: Reale)
    ensures
        !e_nan(x) ==> minore_uguale(ZERO, saturato(x)) && minore_uguale(saturato(x), UNO),
        e_nan(x) ==> e_nan(saturato(x)),
        minore_uguale(x, y) ==> minore_uguale(saturato(x), saturato(y)),
{
}

} // verus!

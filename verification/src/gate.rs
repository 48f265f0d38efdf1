//! The verdict of the pre-inference filter: whether a candidate deserves the
//! full (colbert) matching. The filter is permissive: every uncertainty (a
//! spent budget, a withdrawn probe) lets the candidate through.

use crate::reale::{e_nan, le, minore_uguale, nan, Reale};
use vstd::prelude::*;

verus! {

/// The outcome of a decision of the filter.
#[derive(Clone, Copy, Debug, PartialEq, Eq, Structural)]
pub enum Verdict {
    /// Go on to the full matching: the candidate is worth the cost.
    Passa,
    /// Discard: do not spend the full matching on this candidate.
    Blocca,
    /// The budget ran out: the reflex withdraws (permissive).
    Timeout,
}

/// The verdict for a probe score, given whether the deadline had passed
/// before the probe was computed and whether it had passed after.
pub open spec fn spec_verdetto(
    scaduto_prima: bool,
    scaduto_dopo: bool,
    punteggio: Reale,
    soglia: Reale,
) -> Verdict {
    if scaduto_prima || scaduto_dopo {
        Verdict::Timeout
    } else if e_nan(punteggio) {
        Verdict::Passa
    } else if minore_uguale(soglia, punteggio) {
        Verdict::Passa
    } else {
        Verdict::Blocca
    }
}

/// `true` when a probe score can be trusted: it is not NaN (a NaN means the
/// probe withdrew).
pub fn punteggio_valido(score: Reale) -> (r: bool)
    ensures
        r == !e_nan(score),
{
    !nan(score)
}

/// Decides on a candidate. The budget is the first guard, checked before
/// the probe (`scaduto_prima`) and again after it (`scaduto_dopo`); a probe
/// that withdrew (NaN) lets the candidate through; otherwise the candidate
/// passes when its score reaches the threshold.
pub fn verdetto(scaduto_prima: bool, scaduto_dopo: bool, punteggio: Reale, soglia: Reale) -> (r:
    Verdict)
    ensures
        r == spec_verdetto(scaduto_prima, scaduto_dopo, punteggio, soglia),
{
    if scaduto_prima {
        return Verdict::Timeout;
    }
    if scaduto_dopo {
        return Verdict::Timeout;
    }
    if !punteggio_valido(punteggio) {
        return Verdict::Passa;
    }
    if le(soglia, punteggio) {
        Verdict::Passa
    } else {
        Verdict::Blocca
    }
}

/// Whether a comparison goes on after the filter: it does unless the filter
/// blocked it (a timeout withdraws permissively and goes on).
pub fn procede(v: Verdict) -> (r: bool)
    ensures
        r == (v != Verdict::Blocca),
{
    match v {
        Verdict::Passa => true,
        Verdict::Timeout => true,
        Verdict::Blocca => false,
    }
}

/// The filter is permissive: it blocks only a candidate judged in time, with
/// a valid score below the threshold. A spent budget is a timeout, a
/// withdrawn probe passes, a score at or above the threshold passes.
pub proof fn gate_permissivo(
    scaduto_prima: bool,
    scaduto_dopo: bool,
    punteggio: Reale,
    soglia: Reale,
)
    ensures
        spec_verdetto(scaduto_prima, scaduto_dopo, punteggio, soglia) == Verdict::Blocca <==> (
        !scaduto_prima && !scaduto_dopo && !e_nan(punteggio) && !minore_uguale(soglia, punteggio)),
        (scaduto_prima || scaduto_dopo) ==> spec_verdetto(
            scaduto_prima,
            scaduto_dopo,
            punteggio,
            soglia,
        ) == Verdict::Timeout,
        (!scaduto_prima && !scaduto_dopo && (e_nan(punteggio) || minore_uguale(
            soglia,
            punteggio,
        ))) ==> spec_verdetto(scaduto_prima, scaduto_dopo, punteggio, soglia) == Verdict::Passa,
{
}

/// Raising the score of a candidate never turns a pass into a block.
pub proof fn gate_monotono(scaduto: bool, basso: Reale, alto: Reale, soglia: Reale)
    requires
        minore_uguale(basso, alto),
        spec_verdetto(scaduto, scaduto, basso, soglia) == Verdict::Passa,
    ensures
        spec_verdetto(scaduto, scaduto, alto, soglia) == Verdict::Passa,
{
}

} // verus!

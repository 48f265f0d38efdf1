//! The decision budget of the filter: a deadline measured on the monotonic
//! clock. Once the budget is spent, the filter withdraws.

use std::time::{Duration, Instant};
use vstd::prelude::*;

verus! {

#[verifier::external_type_specification]
#[verifier::external_body]
pub struct ExInstant(Instant);

/// Calls `std::time::Instant::now`. The instant read from the clock is not
/// described: nothing is promised of it.
#[verifier::external_body]
fn leggi_orologio() -> Instant {
    Instant::now()
}

/// Calls `std::time::Instant::elapsed`: the time passed since the instant,
/// read from the clock. Nothing is promised of it.
#[verifier::external_body]
fn tempo_trascorso(inizio: &Instant) -> Duration {
    inizio.elapsed()
}

/// Calls `std::time::Duration::as_nanos`: the whole nanoseconds of a
/// duration. The duration is opaque here, so its value is not described.
#[verifier::external_body]
fn in_nanosecondi(durata: Duration) -> u128 {
    durata.as_nanos()
}

/// Whether a budget of `budget_ns` nanoseconds is spent after
/// `trascorsi_ns` nanoseconds.
pub open spec fn spec_esaurito(budget_ns: u64, trascorsi_ns: u128) -> bool {
    trascorsi_ns >= budget_ns
}

/// What is left of a budget of `budget_ns` nanoseconds after `trascorsi_ns`
/// nanoseconds (0 once it is spent).
pub open spec fn spec_residuo(budget_ns: u64, trascorsi_ns: u128) -> int {
    if trascorsi_ns >= budget_ns {
        0
    } else {
        budget_ns - trascorsi_ns
    }
}

/// A decision budget: the instant at which it was granted and its length in
/// nanoseconds. The deadline is the start plus the length.
pub struct Budget {
    inizio: Instant,
    budget_ns: u64,
}

impl Budget {
    /// The length of the budget in nanoseconds.
    pub closed spec fn durata(&self) -> u64 {
        self.budget_ns
    }

    /// Grants a budget of `budget_ns` nanoseconds starting now. A budget of
    /// zero is spent from the start.
    pub fn new(budget_ns: u64) -> (b: Self)
        ensures
            b.durata() == budget_ns,
    {
        Budget { inizio: leggi_orologio(), budget_ns }
    }

    /// The length of the budget in nanoseconds, as it was granted.
    pub fn budget_ns(&self) -> (r: u64)
        ensures
            r == self.durata(),
    {
        self.budget_ns
    }

    /// The nanoseconds left before the deadline (0 once it has passed).
    pub fn residuo_ns(&self) -> (r: u64)
        ensures
            r <= self.durata(),
            self.durata() == 0 ==> r == 0,
    {
        let trascorsi = in_nanosecondi(tempo_trascorso(&self.inizio));
        residuo_dopo(self.budget_ns, trascorsi)
    }

    /// `true` once the deadline has passed.
    pub fn esaurito(&self) -> (r: bool)
        ensures
            self.durata() == 0 ==> r,
    {
        let trascorsi = in_nanosecondi(tempo_trascorso(&self.inizio));
        esaurito_dopo(self.budget_ns, trascorsi)
    }
}

/// The nanoseconds left of a budget of `budget_ns` after `trascorsi_ns`
/// nanoseconds have passed.
pub fn residuo_dopo(budget_ns: u64, trascorsi_ns: u128) -> (r: u64)
    ensures
        r == spec_residuo(budget_ns, trascorsi_ns),
{
    if trascorsi_ns >= budget_ns as u128 {
        0
    } else {
        budget_ns - (trascorsi_ns as u64)
    }
}

/// Whether a budget of `budget_ns` is spent after `trascorsi_ns` nanoseconds.
pub fn esaurito_dopo(budget_ns: u64, trascorsi_ns: u128) -> (r: bool)
    ensures
        r == spec_esaurito(budget_ns, trascorsi_ns),
{
    trascorsi_ns >= budget_ns as u128
}

/// The remaining time is zero exactly when the budget is spent, and it never
/// exceeds the budget.
pub proof fn residuo_nullo_sse_esaurito(budget_ns: u64, trascorsi_ns: u128)
    ensures
        (spec_residuo(budget_ns, trascorsi_ns) == 0) == spec_esaurito(budget_ns, trascorsi_ns),
        0 <= spec_residuo(budget_ns, trascorsi_ns) <= budget_ns,
{
}

/// As time passes the remaining time never grows, and a spent budget stays
/// spent.
pub proof fn il_tempo_consuma_il_budget(budget_ns: u64, prima_ns: u128, dopo_ns: u128)
    requires
        prima_ns <= dopo_ns,
    ensures
        spec_residuo(budget_ns, dopo_ns) <= spec_residuo(budget_ns, prima_ns),
        spec_esaurito(budget_ns, prima_ns) ==> spec_esaurito(budget_ns, dopo_ns),
{
}

} // verus!

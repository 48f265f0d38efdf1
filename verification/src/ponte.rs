//! The bridge between the walk of cells and the warping: the coherence of a
//! walk and of the cell dictionary, and the projection of each step on the
//! centroid of its cell. Coordinates, confidences and centroids are doubles
//! carried by their bits; a single-precision value is carried widened, which
//! is exact.

use crate::reale::Reale;
use vstd::prelude::*;

verus! {

/// A step of the walk: its cell, its ordinal position and the confidence of
/// its projection on the cell.
#[derive(Debug, Clone, Copy, PartialEq, Eq, Structural)]
pub struct WalkStep {
    pub cella: u16,
    pub pos: u32,
    pub conf: Reale,
}

/// A walk of cells: per step the cell, its ordinal position and the
/// confidence of the projection, with the ColBERT matrix of the steps laid
/// out flat, `dim` values per step.
#[derive(Debug, Clone, Copy)]
pub struct Walk<'a> {
    pub celle: &'a [u16],
    pub pos: &'a [u32],
    pub conf: &'a [Reale],
    pub colbert: &'a [Reale],
    pub dim: usize,
}

/// The dictionary of cells: `k` centroids of `dim` values, laid out flat.
#[derive(Debug, Clone, Copy)]
pub struct Dizionario<'a> {
    pub centroidi: &'a [Reale],
    pub k: usize,
    pub dim: usize,
}

impl<'a> Walk<'a> {
    /// The number of steps.
    pub open spec fn passi(&self) -> int {
        self.celle@.len() as int
    }

    /// Not empty, the step buffers aligned, and the ColBERT matrix holding
    /// exactly `dim > 0` values per step.
    pub open spec fn e_coerente(&self) -> bool {
        &&& self.passi() > 0
        &&& self.pos@.len() == self.passi()
        &&& self.conf@.len() == self.passi()
        &&& self.dim > 0
        &&& self.colbert@.len() == self.passi() * self.dim
    }

    /// Checks the inner coherence of the walk.
    pub fn coerente(&self) -> (r: bool)
        ensures
            r == self.e_coerente(),
    {
        let n = self.celle.len();
        if n == 0 || self.pos.len() != n || self.conf.len() != n || self.dim == 0 {
            return false;
        }
        let totale = self.colbert.len();
        match n.checked_mul(self.dim) {
            Some(t) => t == totale,
            None => false,
        }
    }
}

impl<'a> Dizionario<'a> {
    /// At least one cell, `dim > 0`, and exactly `k * dim` values.
    pub open spec fn e_coerente(&self) -> bool {
        &&& self.k > 0
        &&& self.dim > 0
        &&& self.centroidi@.len() == self.k * self.dim
    }

    /// Checks the inner coherence of the dictionary.
    pub fn coerente(&self) -> (r: bool)
        ensures
            r == self.e_coerente(),
    {
        if self.k == 0 || self.dim == 0 {
            return false;
        }
        let totale = self.centroidi.len();
        match self.k.checked_mul(self.dim) {
            Some(t) => t == totale,
            None => false,
        }
    }
}

/// The ways of projecting the steps of a walk on points.
#[derive(Debug, Clone, Copy, PartialEq, Eq, Structural)]
pub enum ProiezionePunti {
    /// Each step on the centroid of its cell.
    Centroide,
    /// Each step on the mean of the centroids of its neighbourhood in the
    /// walk, weighted by the confidences.
    MediaPesata,
}

impl Default for ProiezionePunti {
    fn default() -> (r: Self)
        ensures
            r == ProiezionePunti::Centroide,
    {
        ProiezionePunti::Centroide
    }
}

/// The errors of the bridge's orchestration, apart from the geometric
/// withdrawal (`None`).
#[derive(Debug, Clone, Copy, PartialEq, Eq)]
pub enum ErrorePonte {
    /// The output buffer is smaller than the projected points.
    BufferInadeguato { richiesti: usize, disponibili: usize },
    /// The data of the walk are inconsistent.
    DatiInconsistenti(&'static str),
}

/// Every cell of the walk lies in the dictionary.
pub open spec fn celle_nel_dizionario(walk: Walk, diz: Dizionario) -> bool {
    forall|i: int| 0 <= i < walk.passi() ==> (#[trigger] walk.celle@[i]) < diz.k
}

/// The walk and the dictionary admit a projection into a buffer of
/// `disponibili` values: both are coherent, of the same dimension, and the
/// buffer holds `passi * dim` values.
pub open spec fn ammissibile(walk: Walk, diz: Dizionario, disponibili: int) -> bool {
    &&& walk.e_coerente()
    &&& diz.e_coerente()
    &&& walk.dim == diz.dim
    &&& disponibili >= walk.passi() * diz.dim
}

/// The walk can be projected through the dictionary into a buffer of
/// `disponibili` values: it is admissible and every cell exists. Otherwise
/// the bridge withdraws, whatever the projection.
pub open spec fn proiettabile(walk: Walk, diz: Dizionario, disponibili: int) -> bool {
    &&& ammissibile(walk, diz, disponibili)
    &&& celle_nel_dizionario(walk, diz)
}

/// The first step, from `i` on, whose cell lies outside a dictionary of `k`
/// cells (the number of steps when there is none).
pub open spec fn primo_fuori(celle: Seq<u16>, k: usize, i: int) -> int
    decreases celle.len() - i,
{
    if i < 0 || i >= celle.len() {
        celle.len() as int
    } else if celle[i] >= k {
        i
    } else {
        primo_fuori(celle, k, i + 1)
    }
}

/// Decides whether the walk and the dictionary admit a projection into a
/// buffer of `disponibili` values (cells aside).
fn verifica_ammissibile(walk: &Walk, diz: &Dizionario, disponibili: usize) -> (r: bool)
    ensures
        r == ammissibile(*walk, *diz, disponibili as int),
{
    if !walk.coerente() || !diz.coerente() {
        return false;
    }
    if walk.dim != diz.dim {
        return false;
    }
    // the ColBERT matrix of the walk holds n * dim values
    let totale = walk.colbert.len();
    disponibili >= totale
}

/// Decides whether the walk can be projected into a buffer of
/// `disponibili` values.
pub fn verifica_proiezione(walk: &Walk, diz: &Dizionario, disponibili: usize) -> (r: bool)
    ensures
        r == proiettabile(*walk, *diz, disponibili as int),
{
    if !verifica_ammissibile(walk, diz, disponibili) {
        return false;
    }
    let n = walk.celle.len();
    let mut i: usize = 0;
    while i < n
        invariant
            n == walk.celle@.len(),
            0 <= i <= n,
            forall|h: int| 0 <= h < i ==> (#[trigger] walk.celle@[h]) < diz.k,
        decreases n - i,
    {
        if walk.celle[i] as usize >= diz.k {
            return false;
        }
        i += 1;
    }
    true
}

/// The projected value `j` of step `i` on the centroid of its cell.
pub open spec fn valore_del_centroide(walk: Walk, diz: Dizionario, i: int, j: int) -> Reale {
    diz.centroidi@[walk.celle@[i] * diz.dim + j]
}

/// Projects each step of the walk on the centroid of its cell, writing the
/// `passi * dim` coordinates at the head of `out_points` and returning their
/// number. `None` when the walk cannot be projected: the buffer is untouched
/// when the walk and the dictionary are not admissible; otherwise the steps
/// before the first cell outside the dictionary have been written.
pub fn proietta_sui_centroidi(walk: &Walk, diz: &Dizionario, out_points: &mut Vec<Reale>) -> (r:
    Option<usize>)
    ensures
        r is Some <==> proiettabile(*walk, *diz, old(out_points)@.len() as int),
        final(out_points)@.len() == old(out_points)@.len(),
        !ammissibile(*walk, *diz, old(out_points)@.len() as int) ==> final(out_points)@ == old(
            out_points,
        )@,
        ammissibile(*walk, *diz, old(out_points)@.len() as int) ==> ({
            let f = primo_fuori(walk.celle@, diz.k, 0);
            &&& forall|i: int, j: int|
                0 <= i < f && 0 <= j < diz.dim ==> #[trigger] final(out_points)@[i * diz.dim + j]
                    == valore_del_centroide(*walk, *diz, i, j)
            &&& forall|x: int|
                f * diz.dim <= x < old(out_points)@.len() ==> #[trigger] final(out_points)@[x]
                    == old(out_points)@[x]
        }),
        r matches Some(t) ==> {
            &&& t == walk.passi() * diz.dim
            &&& primo_fuori(walk.celle@, diz.k, 0) == walk.passi()
        },
{
    if !verifica_ammissibile(walk, diz, out_points.len()) {
        return None;
    }
    let n = walk.celle.len();
    let d = diz.dim;
    let ghost iniziale = out_points@;
    let totale = walk.colbert.len();
    let totale_centroidi = diz.centroidi.len();
    let mut i: usize = 0;
    while i < n
        invariant
            n == walk.celle@.len(),
            d == diz.dim,
            totale == n * d,
            totale_centroidi == diz.k * d,
            ammissibile(*walk, *diz, iniziale.len() as int),
            iniziale == old(out_points)@,
            primo_fuori(walk.celle@, diz.k, 0) == primo_fuori(walk.celle@, diz.k, i as int),
            forall|h: int| 0 <= h < i ==> #[trigger] walk.celle@[h] < diz.k,
            out_points@.len() == iniziale.len(),
            0 <= i <= n,
            forall|a: int, b: int|
                0 <= a < i && 0 <= b < d ==> #[trigger] out_points@[a * d + b]
                    == valore_del_centroide(*walk, *diz, a, b),
            forall|x: int| i * d <= x < iniziale.len() ==> #[trigger] out_points@[x] == iniziale[x],
        decreases n - i,
    {
        let cella = walk.celle[i] as usize;
        if cella >= diz.k {
            return None;
        }
        proof {
            assert(primo_fuori(walk.celle@, diz.k, i as int) == primo_fuori(
                walk.celle@,
                diz.k,
                i + 1,
            ));
            assert((i + 1) * d <= n * d) by (nonlinear_arith)
                requires
                    i < n,
                    d >= 0,
            ;
            assert((cella + 1) * d <= diz.k * d) by (nonlinear_arith)
                requires
                    cella < diz.k,
                    d >= 0,
            ;
            assert(i * d + d == (i + 1) * d) by (nonlinear_arith);
            assert(cella * d + d == (cella + 1) * d) by (nonlinear_arith);
        }
        let base = cella * d;
        let out_base = i * d;
        let mut j: usize = 0;
        while j < d
            invariant
                n == walk.celle@.len(),
                d == diz.dim,
                i < n,
                cella == walk.celle@[i as int],
                base == cella * d,
                out_base == i * d,
                out_base + d <= totale,
                totale <= iniziale.len(),
                base + d <= totale_centroidi,
                totale_centroidi == diz.centroidi@.len(),
                out_points@.len() == iniziale.len(),
                0 <= j <= d,
                forall|a: int, b: int|
                    0 <= a < i && 0 <= b < d ==> #[trigger] out_points@[a * d + b]
                        == valore_del_centroide(*walk, *diz, a, b),
                forall|b: int|
                    0 <= b < j ==> #[trigger] out_points@[out_base + b] == valore_del_centroide(
                        *walk,
                        *diz,
                        i as int,
                        b,
                    ),
                forall|x: int|
                    out_base + j <= x < iniziale.len() ==> #[trigger] out_points@[x] == iniziale[x],
            decreases d - j,
        {
            let ghost prima = out_points@;
            out_points.set(out_base + j, diz.centroidi[base + j]);
            proof {
                assert forall|a: int, b: int| 0 <= a < i && 0 <= b < d implies #[trigger] out_points@[a
                    * d + b] == valore_del_centroide(*walk, *diz, a, b) by {
                    assert(a * d + b < (a + 1) * d) by (nonlinear_arith)
                        requires
                            b < d,
                    ;
                    assert((a + 1) * d <= i * d) by (nonlinear_arith)
                        requires
                            a + 1 <= i,
                            d >= 0,
                    ;
                    assert(out_points@[a * d + b] == prima[a * d + b]);
                }
            }
            j += 1;
        }
        proof {
            assert forall|a: int, b: int| 0 <= a < i + 1 && 0 <= b < d implies #[trigger] out_points@[a
                * d + b] == valore_del_centroide(*walk, *diz, a, b) by {
                if a == i {
                    assert(a * d + b == out_base + b);
                }
            }
            assert((i + 1) * d == out_base + d) by (nonlinear_arith)
                requires
                    out_base == i * d,
            ;
        }
        i += 1;
    }
    Some(n * d)
}

/// The neighbourhood of step `i` of a walk of `n` steps in the weighted
/// mean: the step and its neighbours, reduced at the borders without
/// repeating the border step.
pub fn finestra_media(i: usize, n: usize) -> (r: (usize, usize))
    requires
        i < n,
    ensures
        r.0 == (if i > 0 {
            i - 1
        } else {
            i as int
        }),
        r.1 == (if i + 1 < n {
            i + 1
        } else {
            i as int
        }),
{
    let inizio = if i > 0 {
        i - 1
    } else {
        i
    };
    let fine = if i + 1 < n {
        i + 1
    } else {
        i
    };
    (inizio, fine)
}

} // verus!

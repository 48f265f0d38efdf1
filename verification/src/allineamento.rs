//! The discrete part of the dynamic time warping between two trajectories:
//! the Sakoe-Chiba band of each row, the checks made before the cost matrix
//! is filled, and the warp path read back from a filled cost matrix.
//!
//! The costs are doubles carried by their bits (`Reale`) and compared in the
//! IEEE order; the library never adds them.

use crate::gate::{procede, Verdict};
use crate::ordinato::OrderedSparseSequence;
use crate::reale::{e_nan, minore_uguale, le, nan, Reale, ZERO};
use vstd::prelude::*;

verus! {

/// The aligner: the half width of the band around the diagonal, and the
/// weight of the content term in the divergence.
pub struct KinematicAligner {
    pub window_size: usize,
    pub alpha: Reale,
}

impl KinematicAligner {
    /// An aligner with the given band and no content term (`alpha = 0.0`).
    pub fn new(window_size: usize) -> (r: Self)
        ensures
            r.window_size == window_size,
            r.alpha == ZERO,
    {
        KinematicAligner { window_size, alpha: ZERO }
    }

    /// An aligner with the given band and content weight.
    pub fn with_alpha(window_size: usize, alpha: Reale) -> (r: Self)
        ensures
            r.window_size == window_size,
            r.alpha == alpha,
    {
        KinematicAligner { window_size, alpha }
    }

    /// The columns of row `i` (1-based) of the cost matrix that lie in the
    /// band: from `max(i - window_size, 1)` to `min(i + window_size, m)`.
    pub fn finestra(&self, i: usize, m: usize) -> (r: (usize, usize))
        ensures
            r.0 == inizio_banda(i as int, self.window_size as int),
            r.1 == fine_banda(i as int, self.window_size as int, m as int),
    {
        banda(i, self.window_size, m)
    }
}

/// First column of the band of row `i`: `max(i - w, 1)`.
pub open spec fn inizio_banda(i: int, w: int) -> int {
    if i - w > 1 {
        i - w
    } else {
        1
    }
}

/// Last column of the band of row `i` over `m` columns: `min(i + w, m)`.
pub open spec fn fine_banda(i: int, w: int, m: int) -> int {
    if i + w < m {
        i + w
    } else {
        m
    }
}

/// The band of row `i` for the half width `w` over `m` columns.
pub fn banda(i: usize, w: usize, m: usize) -> (r: (usize, usize))
    ensures
        r.0 == inizio_banda(i as int, w as int),
        r.1 == fine_banda(i as int, w as int, m as int),
{
    let inizio = if w < i && i - w > 1 {
        i - w
    } else {
        1
    };
    let fine = if i < m && w < m - i {
        i + w
    } else {
        m
    };
    (inizio, fine)
}

/// Error: two vectors of different dimensions.
pub const ERR_COSENO_DIMENSIONI: &'static str = "Disallineamento dimensionale tra i vettori";

/// Error: two empty vectors.
pub const ERR_COSENO_VUOTI: &'static str = "I vettori non possono essere vuoti";

/// Error: a NaN among the coordinates.
pub const ERR_COSENO_NAN: &'static str = "NaN nei vettori di input: distanza coseno indefinita";

/// Some coordinate of the vector is NaN.
pub open spec fn ha_nan(u: Seq<Reale>) -> bool {
    exists|k: int| 0 <= k < u.len() && e_nan(#[trigger] u[k])
}

/// Whether the vector holds a NaN.
fn contiene_nan(u: &[Reale]) -> (r: bool)
    ensures
        r == ha_nan(u@),
{
    let mut i: usize = 0;
    while i < u.len()
        invariant
            0 <= i <= u@.len(),
            forall|k: int| 0 <= k < i ==> !e_nan(#[trigger] u@[k]),
        decreases u@.len() - i,
    {
        if nan(u[i]) {
            return true;
        }
        i += 1;
    }
    false
}

/// The checks that precede the cosine distance of two vectors: the same
/// dimension, not empty, no NaN.
pub fn verifica_coseno(u: &[Reale], v: &[Reale]) -> (r: Result<(), &'static str>)
    ensures
        u@.len() != v@.len() ==> r == Err::<(), &'static str>(ERR_COSENO_DIMENSIONI),
        u@.len() == v@.len() && u@.len() == 0 ==> r == Err::<(), &'static str>(ERR_COSENO_VUOTI),
        u@.len() == v@.len() && u@.len() > 0 && (ha_nan(u@) || ha_nan(v@)) ==> r == Err::<
            (),
            &'static str,
        >(ERR_COSENO_NAN),
        r is Ok <==> (u@.len() == v@.len() && u@.len() > 0 && !ha_nan(u@) && !ha_nan(v@)),
{
    if u.len() != v.len() {
        return Err(ERR_COSENO_DIMENSIONI);
    }
    if u.len() == 0 {
        return Err(ERR_COSENO_VUOTI);
    }
    if contiene_nan(u) || contiene_nan(v) {
        return Err(ERR_COSENO_NAN);
    }
    Ok(())
}

/// Error: an empty trajectory.
pub const ERR_TRAIETTORIA_VUOTA: &'static str = "Le sequenze di traiettoria non possono essere vuote";

/// Error: a dense trajectory and its sparse guide of different lengths.
pub const ERR_GUIDA_DISALLINEATA: &'static str =
    "Disallineamento tra sequenze dense e guide ordered-sparse";

/// Error: vectors of dimension zero.
pub const ERR_DIMENSIONE_NULLA: &'static str = "La dimensione dei vettori deve essere maggiore di zero";

/// The checks that precede the plain alignment of two trajectories of `n`
/// and `m` points whose first point has dimension `dim`.
pub fn verifica_allineamento(n: usize, m: usize, dim: usize) -> (r: Result<(), &'static str>)
    ensures
        (n == 0 || m == 0) ==> r == Err::<(), &'static str>(ERR_TRAIETTORIA_VUOTA),
        (n > 0 && m > 0 && dim == 0) ==> r == Err::<(), &'static str>(ERR_DIMENSIONE_NULLA),
        r is Ok <==> (n > 0 && m > 0 && dim > 0),
{
    if n == 0 || m == 0 {
        return Err(ERR_TRAIETTORIA_VUOTA);
    }
    if dim == 0 {
        return Err(ERR_DIMENSIONE_NULLA);
    }
    Ok(())
}

/// The band limits `(w_min, w_max)`, put in order.
pub open spec fn limiti_ordinati(w_min: usize, w_max: usize) -> (usize, usize) {
    if w_min <= w_max {
        (w_min, w_max)
    } else {
        (w_max, w_min)
    }
}

/// The checks that precede the alignment guided by two ordered-sparse
/// sequences, and its first layer: `Ok(None)` when the global signatures
/// share fewer bits than `soglia` (the pair is pruned before any matrix is
/// built), else `Ok(Some(..))` with the band limits put in order.
pub fn verifica_allineamento_guidato(
    n: usize,
    m: usize,
    dim: usize,
    guida_a: &OrderedSparseSequence,
    guida_b: &OrderedSparseSequence,
    soglia: u32,
    w_min: usize,
    w_max: usize,
) -> (r: Result<Option<(usize, usize)>, &'static str>)
    ensures
        (n == 0 || m == 0) ==> r == Err::<Option<(usize, usize)>, &'static str>(
            ERR_TRAIETTORIA_VUOTA,
        ),
        (n > 0 && m > 0 && (guida_a.posizioni() != n || guida_b.posizioni() != m)) ==> r
            == Err::<Option<(usize, usize)>, &'static str>(ERR_GUIDA_DISALLINEATA),
        (n > 0 && m > 0 && guida_a.posizioni() == n && guida_b.posizioni() == m && dim == 0)
            ==> r == Err::<Option<(usize, usize)>, &'static str>(ERR_DIMENSIONE_NULLA),
        r is Ok <==> (n > 0 && m > 0 && guida_a.posizioni() == n && guida_b.posizioni() == m
            && dim > 0),
        r is Ok ==> (r->Ok_0 is None <==> guida_a.sovrapposizione(guida_b) < soglia),
        r matches Ok(Some(w)) ==> w == limiti_ordinati(w_min, w_max),
{
    if n == 0 || m == 0 {
        return Err(ERR_TRAIETTORIA_VUOTA);
    }
    if guida_a.num_positions() != n || guida_b.num_positions() != m {
        return Err(ERR_GUIDA_DISALLINEATA);
    }
    if dim == 0 {
        return Err(ERR_DIMENSIONE_NULLA);
    }
    let sovrapposizione = guida_a.global_overlap(guida_b);
    if sovrapposizione < soglia {
        return Ok(None);
    }
    if w_min <= w_max {
        Ok(Some((w_min, w_max)))
    } else {
        Ok(Some((w_max, w_min)))
    }
}

/// The cost matrix has `n + 1` rows of `m + 1` cells.
pub open spec fn matrice_di_costi(c: Seq<Vec<Reale>>, n: int, m: int) -> bool {
    &&& n >= 1
    &&& m >= 1
    &&& c.len() == n + 1
    &&& forall|i: int| 0 <= i < c.len() ==> (#[trigger] c[i])@.len() == m + 1
}

/// One step back from cell `(i, j)` of the cost matrix: along the border
/// straight to the start, else to the cheapest of the diagonal, the left and
/// the upper cell, preferring the diagonal, then the left cell, on ties.
pub open spec fn passo_indietro(c: Seq<Vec<Reale>>, i: usize, j: usize) -> (usize, usize) {
    if i <= 1 {
        (i, (j - 1) as usize)
    } else if j <= 1 {
        ((i - 1) as usize, j)
    } else {
        let diag = c[i - 1]@[j - 1];
        let left = c[i as int]@[j - 1];
        let up = c[i - 1]@[j as int];
        if minore_uguale(diag, left) && minore_uguale(diag, up) {
            ((i - 1) as usize, (j - 1) as usize)
        } else if minore_uguale(left, up) {
            (i, (j - 1) as usize)
        } else {
            ((i - 1) as usize, j)
        }
    }
}

/// The warp path read backwards from cell `(i, j)` down to cell `(1, 1)`,
/// each cell given by the pair of points it aligns, `(i - 1, j - 1)`.
pub open spec fn cammino_indietro(c: Seq<Vec<Reale>>, i: usize, j: usize) -> Seq<(usize, usize)>
    decreases i + j,
{
    if i <= 1 && j <= 1 {
        seq![((i - 1) as usize, (j - 1) as usize)]
    } else if i == 0 || j == 0 {
        Seq::empty()
    } else {
        let p = passo_indietro(c, i, j);
        seq![((i - 1) as usize, (j - 1) as usize)] + cammino_indietro(c, p.0, p.1)
    }
}

/// The warp path of an `n` by `m` cost matrix, from the first pair of points
/// to the last.
pub open spec fn cammino(c: Seq<Vec<Reale>>, n: usize, m: usize) -> Seq<(usize, usize)> {
    cammino_indietro(c, n, m).reverse()
}

/// One step forward along a warp path: one point further in either
/// trajectory, or in both.
pub open spec fn passo_ammesso(a: (usize, usize), b: (usize, usize)) -> bool {
    ||| b.0 == a.0 + 1 && b.1 == a.1
    ||| b.0 == a.0 && b.1 == a.1 + 1
    ||| b.0 == a.0 + 1 && b.1 == a.1 + 1
}

/// A warp path between trajectories of `n` and `m` points: it starts with
/// the first two points, ends with the last two, and moves by admitted steps.
pub open spec fn cammino_valido(p: Seq<(usize, usize)>, n: int, m: int) -> bool {
    &&& p.len() >= 1
    &&& p[0] == (0usize, 0usize)
    &&& p.last().0 == n - 1
    &&& p.last().1 == m - 1
    &&& forall|k: int| 0 <= k < p.len() - 1 ==> passo_ammesso(#[trigger] p[k], p[k + 1])
}

/// The backward path from `(i, j)` starts at `(i - 1, j - 1)`, ends at
/// `(0, 0)` and moves back by admitted steps.
proof fn lemma_cammino_indietro(c: Seq<Vec<Reale>>, i: usize, j: usize)
    requires
        i >= 1,
        j >= 1,
    ensures
        cammino_indietro(c, i, j).len() >= 1,
        cammino_indietro(c, i, j)[0] == ((i - 1) as usize, (j - 1) as usize),
        cammino_indietro(c, i, j).last() == (0usize, 0usize),
        forall|k: int|
            0 <= k < cammino_indietro(c, i, j).len() - 1 ==> passo_ammesso(
                cammino_indietro(c, i, j)[k + 1],
                #[trigger] cammino_indietro(c, i, j)[k],
            ),
    decreases i + j,
{
    if i <= 1 && j <= 1 {
    } else {
        let p = passo_indietro(c, i, j);
        lemma_cammino_indietro(c, p.0, p.1);
        let resto = cammino_indietro(c, p.0, p.1);
        let tutto = cammino_indietro(c, i, j);
        assert(tutto == seq![((i - 1) as usize, (j - 1) as usize)] + resto);
        assert forall|k: int| 0 <= k < tutto.len() - 1 implies passo_ammesso(
            tutto[k + 1],
            #[trigger] tutto[k],
        ) by {
            if k > 0 {
                assert(tutto[k] == resto[k - 1]);
                assert(tutto[k + 1] == resto[k]);
            } else {
                assert(tutto[1] == resto[0]);
                assert(p.0 == i || p.0 == i - 1);
                assert(p.1 == j || p.1 == j - 1);
                assert(p.0 + p.1 < i + j);
            }
        }
    }
}

/// Every warp path read from a cost matrix is a valid warp path: it starts
/// by aligning the first points, ends by aligning the last points, and each
/// step advances one trajectory, the other, or both, by one point.
pub proof fn cammino_sempre_valido(c: Seq<Vec<Reale>>, n: usize, m: usize)
    requires
        n >= 1,
        m >= 1,
    ensures
        cammino_valido(cammino(c, n, m), n as int, m as int),
{
    lemma_cammino_indietro(c, n, m);
    let ind = cammino_indietro(c, n, m);
    let p = cammino(c, n, m);
    assert(p.len() == ind.len());
    assert(p[0] == ind.last());
    assert(p.last() == ind[0]);
    assert forall|k: int| 0 <= k < p.len() - 1 implies passo_ammesso(#[trigger] p[k], p[k + 1]) by {
        let h = ind.len() - 2 - k;
        assert(p[k] == ind[h + 1]);
        assert(p[k + 1] == ind[h]);
    }
}

/// Each step of the warp path `p` over the cost matrix `c` comes from a
/// cheapest predecessor. Where the later pair `b` of a step lies on the
/// first row of cells, the earlier pair `a` is the one to its left; on the
/// first column, the one above. Elsewhere, when none of the three candidate
/// cells (diagonal, left, upper) holds a NaN, the cell of `a` costs no more
/// than any of them, and on ties the diagonal is taken first, then the left
/// cell.
pub open spec fn passi_al_minimo(c: Seq<Vec<Reale>>, p: Seq<(usize, usize)>) -> bool {
    forall|k: int|
        0 <= k < p.len() - 1 ==> {
            let a = #[trigger] p[k];
            let b = p[k + 1];
            let diag = c[b.0 as int]@[b.1 as int];
            let left = c[b.0 + 1]@[b.1 as int];
            let up = c[b.0 as int]@[b.1 + 1];
            let scelto = c[a.0 + 1]@[a.1 + 1];
            &&& b.0 == 0 ==> a.0 == 0 && a.1 + 1 == b.1
            &&& b.0 > 0 && b.1 == 0 ==> a.0 + 1 == b.0 && a.1 == 0
            &&& (b.0 > 0 && b.1 > 0 && !e_nan(diag) && !e_nan(left) && !e_nan(up)) ==> {
                &&& minore_uguale(scelto, diag)
                &&& minore_uguale(scelto, left)
                &&& minore_uguale(scelto, up)
                &&& minore_uguale(diag, left) && minore_uguale(diag, up) ==> a.0 + 1 == b.0
                    && a.1 + 1 == b.1
                &&& !(minore_uguale(diag, left) && minore_uguale(diag, up)) && minore_uguale(
                    left,
                    up,
                ) ==> a.0 == b.0 && a.1 + 1 == b.1
            }
        }
}

/// Along the backward path, each next pair comes from a cheapest cell.
proof fn lemma_indietro_al_minimo(c: Seq<Vec<Reale>>, i: usize, j: usize)
    requires
        i >= 1,
        j >= 1,
    ensures
        forall|t: int|
            0 <= t < cammino_indietro(c, i, j).len() - 1 ==> {
                let a = cammino_indietro(c, i, j)[t + 1];
                let b = #[trigger] cammino_indietro(c, i, j)[t];
                let diag = c[b.0 as int]@[b.1 as int];
                let left = c[b.0 + 1]@[b.1 as int];
                let up = c[b.0 as int]@[b.1 + 1];
                let scelto = c[a.0 + 1]@[a.1 + 1];
                &&& b.0 == 0 ==> a.0 == 0 && a.1 + 1 == b.1
                &&& b.0 > 0 && b.1 == 0 ==> a.0 + 1 == b.0 && a.1 == 0
                &&& (b.0 > 0 && b.1 > 0 && !e_nan(diag) && !e_nan(left) && !e_nan(up)) ==> {
                    &&& minore_uguale(scelto, diag)
                    &&& minore_uguale(scelto, left)
                    &&& minore_uguale(scelto, up)
                    &&& minore_uguale(diag, left) && minore_uguale(diag, up) ==> a.0 + 1 == b.0
                        && a.1 + 1 == b.1
                    &&& !(minore_uguale(diag, left) && minore_uguale(diag, up)) && minore_uguale(
                        left,
                        up,
                    ) ==> a.0 == b.0 && a.1 + 1 == b.1
                }
            },
    decreases i + j,
{
    if i <= 1 && j <= 1 {
    } else {
        let p = passo_indietro(c, i, j);
        lemma_cammino_indietro(c, p.0, p.1);
        lemma_indietro_al_minimo(c, p.0, p.1);
        let resto = cammino_indietro(c, p.0, p.1);
        let tutto = cammino_indietro(c, i, j);
        assert(tutto == seq![((i - 1) as usize, (j - 1) as usize)] + resto);
        assert forall|t: int| 0 <= t < tutto.len() - 1 implies {
            let a = tutto[t + 1];
            let b = #[trigger] tutto[t];
            let diag = c[b.0 as int]@[b.1 as int];
            let left = c[b.0 + 1]@[b.1 as int];
            let up = c[b.0 as int]@[b.1 + 1];
            let scelto = c[a.0 + 1]@[a.1 + 1];
            &&& b.0 == 0 ==> a.0 == 0 && a.1 + 1 == b.1
            &&& b.0 > 0 && b.1 == 0 ==> a.0 + 1 == b.0 && a.1 == 0
            &&& (b.0 > 0 && b.1 > 0 && !e_nan(diag) && !e_nan(left) && !e_nan(up)) ==> {
                &&& minore_uguale(scelto, diag)
                &&& minore_uguale(scelto, left)
                &&& minore_uguale(scelto, up)
                &&& minore_uguale(diag, left) && minore_uguale(diag, up) ==> a.0 + 1 == b.0
                    && a.1 + 1 == b.1
                &&& !(minore_uguale(diag, left) && minore_uguale(diag, up)) && minore_uguale(
                    left,
                    up,
                ) ==> a.0 == b.0 && a.1 + 1 == b.1
            }
        } by {
            if t > 0 {
                assert(tutto[t] == resto[t - 1]);
                assert(tutto[t + 1] == resto[t]);
            } else {
                assert(tutto[0] == ((i - 1) as usize, (j - 1) as usize));
                assert(tutto[1] == resto[0]);
            }
        }
    }
}

/// Each step of the warp path, read backwards from the last pair, moves to
/// a cheapest of the three predecessor cells (diagonal, left, upper),
/// preferring the diagonal and then the left cell on ties; along the first
/// row or column it moves straight towards the start.
pub proof fn cammino_scende_al_minimo(c: Seq<Vec<Reale>>, n: usize, m: usize)
    requires
        n >= 1,
        m >= 1,
    ensures
        passi_al_minimo(c, cammino(c, n, m)),
{
    lemma_cammino_indietro(c, n, m);
    lemma_indietro_al_minimo(c, n, m);
    let ind = cammino_indietro(c, n, m);
    let p = cammino(c, n, m);
    assert forall|k: int| 0 <= k < p.len() - 1 implies {
        let a = #[trigger] p[k];
        let b = p[k + 1];
        let diag = c[b.0 as int]@[b.1 as int];
        let left = c[b.0 + 1]@[b.1 as int];
        let up = c[b.0 as int]@[b.1 + 1];
        let scelto = c[a.0 + 1]@[a.1 + 1];
        &&& b.0 == 0 ==> a.0 == 0 && a.1 + 1 == b.1
        &&& b.0 > 0 && b.1 == 0 ==> a.0 + 1 == b.0 && a.1 == 0
        &&& (b.0 > 0 && b.1 > 0 && !e_nan(diag) && !e_nan(left) && !e_nan(up)) ==> {
            &&& minore_uguale(scelto, diag)
            &&& minore_uguale(scelto, left)
            &&& minore_uguale(scelto, up)
            &&& minore_uguale(diag, left) && minore_uguale(diag, up) ==> a.0 + 1 == b.0 && a.1 + 1
                == b.1
            &&& !(minore_uguale(diag, left) && minore_uguale(diag, up)) && minore_uguale(left, up)
                ==> a.0 == b.0 && a.1 + 1 == b.1
        }
    } by {
        let h = ind.len() - 2 - k;
        assert(p[k] == ind[h + 1]);
        assert(p[k + 1] == ind[h]);
    }
}

/// Reads the warp path back from a filled cost matrix of `n + 1` rows of
/// `m + 1` cells: from cell `(n, m)` back to cell `(1, 1)`, then reversed.
pub fn cammino_di_allineamento(costi: &Vec<Vec<Reale>>, n: usize, m: usize) -> (r: Vec<
    (usize, usize),
>)
    requires
        matrice_di_costi(costi@, n as int, m as int),
    ensures
        r@ == cammino(costi@, n, m),
        cammino_valido(r@, n as int, m as int),
        passi_al_minimo(costi@, r@),
{
    let ghost c = costi@;
    let mut indietro: Vec<(usize, usize)> = Vec::new();
    let mut i: usize = n;
    let mut j: usize = m;
    indietro.push((i - 1, j - 1));
    proof {
        lemma_cammino_indietro(c, n, m);
    }
    while i > 1 || j > 1
        invariant
            c == costi@,
            matrice_di_costi(c, n as int, m as int),
            1 <= i <= n,
            1 <= j <= m,
            indietro@.len() >= 1,
            indietro@ + cammino_indietro(c, i, j).drop_first() == cammino_indietro(c, n, m),
        decreases i + j,
    {
        let ghost vecchio = indietro@;
        let ghost (i0, j0) = (i, j);
        if i == 1 {
            j -= 1;
        } else if j == 1 {
            i -= 1;
        } else {
            let diag = costi[i - 1][j - 1];
            let left = costi[i][j - 1];
            let up = costi[i - 1][j];
            if le(diag, left) && le(diag, up) {
                i -= 1;
                j -= 1;
            } else if le(left, up) {
                j -= 1;
            } else {
                i -= 1;
            }
        }
        indietro.push((i - 1, j - 1));
        proof {
            assert((i, j) == passo_indietro(c, i0, j0));
            lemma_cammino_indietro(c, i, j);
            let resto = cammino_indietro(c, i, j);
            assert(cammino_indietro(c, i0, j0) == seq![((i0 - 1) as usize, (j0 - 1) as usize)]
                + resto);
            assert(cammino_indietro(c, i0, j0).drop_first() =~= resto);
            assert(resto =~= seq![((i - 1) as usize, (j - 1) as usize)] + resto.drop_first());
            assert(indietro@ + resto.drop_first() =~= vecchio + resto);
        }
    }
    proof {
        assert(cammino_indietro(c, i, j).drop_first() =~= Seq::<(usize, usize)>::empty());
        assert(indietro@ =~= cammino_indietro(c, n, m));
    }
    let lunghezza = indietro.len();
    let mut r: Vec<(usize, usize)> = Vec::new();
    let mut k: usize = 0;
    while k < lunghezza
        invariant
            lunghezza == indietro@.len(),
            0 <= k <= lunghezza,
            r@.len() == k,
            forall|h: int| 0 <= h < k ==> r@[h] == indietro@[lunghezza - 1 - h],
        decreases lunghezza - k,
    {
        r.push(indietro[lunghezza - 1 - k]);
        k += 1;
    }
    proof {
        assert(r@ =~= indietro@.reverse());
        cammino_sempre_valido(c, n, m);
        cammino_scende_al_minimo(c, n, m);
    }
    r
}

/// Error: a point of the first trajectory of another dimension.
pub const ERR_RIGA_A: &'static str = "Dimensione del vettore non coerente lungo la sequenza A";

/// Error: a point of the second trajectory of another dimension.
pub const ERR_RIGA_B: &'static str = "Dimensione del vettore non coerente lungo la sequenza B";

/// The first failure met along row `i` (1-based) of the cost matrix, from
/// column `j` to column `fine`: a point of the second trajectory of another
/// dimension, or a cosine distance that cannot be taken (vectors of
/// dimension zero, or a NaN in either point). Each point is its dimension
/// and whether it holds a NaN.
pub open spec fn errore_colonne(
    dim: usize,
    x: (usize, bool),
    b: Seq<(usize, bool)>,
    j: int,
    fine: int,
) -> Option<&'static str>
    decreases fine + 1 - j,
{
    if j > fine || j < 1 || j > b.len() {
        None
    } else if b[j - 1].0 != dim {
        Some(ERR_RIGA_B)
    } else if dim == 0 {
        Some(ERR_COSENO_VUOTI)
    } else if x.1 || b[j - 1].1 {
        Some(ERR_COSENO_NAN)
    } else {
        errore_colonne(dim, x, b, j + 1, fine)
    }
}

/// The first failure met filling the cost matrix from row `i` on, each row
/// over its band of half width `w[i - 1]`.
pub open spec fn errore_righe(
    dim: usize,
    a: Seq<(usize, bool)>,
    b: Seq<(usize, bool)>,
    w: Seq<usize>,
    i: int,
) -> Option<&'static str>
    decreases a.len() + 1 - i,
{
    if i < 1 || i > a.len() || i > w.len() {
        None
    } else if a[i - 1].0 != dim {
        Some(ERR_RIGA_A)
    } else {
        match errore_colonne(
            dim,
            a[i - 1],
            b,
            inizio_banda(i, w[i - 1] as int),
            fine_banda(i, w[i - 1] as int, b.len() as int),
        ) {
            Some(e) => Some(e),
            None => errore_righe(dim, a, b, w, i + 1),
        }
    }
}

/// The checks made while the cost matrix is filled, in the order the rows
/// and their bands are visited: every point must have dimension `dim`, and
/// no compared pair may hold a NaN. Each point is given by its dimension and
/// whether it holds a NaN; `larghezze[i]` is the half width of the band of
/// row `i + 1`.
pub fn verifica_righe(
    dim: usize,
    a: &[(usize, bool)],
    b: &[(usize, bool)],
    larghezze: &[usize],
) -> (r: Result<(), &'static str>)
    requires
        larghezze@.len() == a@.len(),
    ensures
        r == match errore_righe(dim, a@, b@, larghezze@, 1) {
            Some(e) => Err::<(), &'static str>(e),
            None => Ok(()),
        },
{
    let n = a.len();
    let m = b.len();
    let mut i0: usize = 0;
    while i0 < n
        invariant
            n == a@.len(),
            m == b@.len(),
            larghezze@.len() == n,
            0 <= i0 <= n,
            errore_righe(dim, a@, b@, larghezze@, 1) == errore_righe(
                dim,
                a@,
                b@,
                larghezze@,
                i0 + 1,
            ),
        decreases n - i0,
    {
        let i = i0 + 1;
        let x = a[i0];
        if x.0 != dim {
            return Err(ERR_RIGA_A);
        }
        let (inizio, fine) = banda(i, larghezze[i0], m);
        let ghost colonne = errore_colonne(dim, x, b@, inizio as int, fine as int);
        proof {
            assert(errore_righe(dim, a@, b@, larghezze@, 1) == match colonne {
                Some(e) => Some(e),
                None => errore_righe(dim, a@, b@, larghezze@, i + 1),
            });
        }
        let mut c: usize = inizio - 1;
        while c < fine
            invariant
                n == a@.len(),
                m == b@.len(),
                1 <= inizio,
                inizio - 1 <= c,
                fine <= m,
                colonne == errore_colonne(dim, x, b@, (c + 1) as int, fine as int),
                errore_righe(dim, a@, b@, larghezze@, 1) == match colonne {
                    Some(e) => Some(e),
                    None => errore_righe(dim, a@, b@, larghezze@, i + 1),
                },
            decreases fine - c,
        {
            let y = b[c];
            if y.0 != dim {
                return Err(ERR_RIGA_B);
            }
            if dim == 0 {
                return Err(ERR_COSENO_VUOTI);
            }
            if x.1 || y.1 {
                return Err(ERR_COSENO_NAN);
            }
            c += 1;
        }
        i0 += 1;
    }
    Ok(())
}

/// Error: two trajectories of different dimensions.
pub const ERR_DIMENSIONI_DIVERSE: &'static str =
    "Disallineamento dimensionale tra le due traiettorie CrispEmbed";

/// Whether two trajectories are aligned after the verdict of the filter:
/// an error when their dimensions differ, else unless the filter blocked.
pub fn allineare_dopo_verdetto(dim_a: usize, dim_b: usize, v: Verdict) -> (r: Result<
    bool,
    &'static str,
>)
    ensures
        dim_a != dim_b ==> r == Err::<bool, &'static str>(ERR_DIMENSIONI_DIVERSE),
        dim_a == dim_b ==> r == Ok::<bool, &'static str>(v != Verdict::Blocca),
{
    if dim_a != dim_b {
        return Err(ERR_DIMENSIONI_DIVERSE);
    }
    Ok(procede(v))
}

} // verus!

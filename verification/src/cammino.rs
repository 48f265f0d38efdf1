//! From the raw data of the embedding server to the contract of the walk:
//! the per-token dense trajectory and the ordered-sparse sequence of the
//! steps, with the hygiene filter that keeps only the emitted, non-special
//! steps significant.

use crate::ordinato::{
    coppie, difetto_posizione, firma, lemma_primo_difetto, lemma_totale_singoli, primo_difetto,
    Attivazione, OrderedSparseSequence, TokenId,
};
use crate::reale::{e_finito, Reale, ZERO};
use vstd::prelude::*;

verus! {

/// The signed weight of a step of the walk (bits of the double holding the
/// single-precision weight).
pub type WalkWeight = Reale;

/// A raw datum that breaks the contract of the walk.
#[derive(Clone, Copy, Debug, PartialEq, Eq, Structural)]
pub enum ParseError {
    /// The per-token vectors have different dimensions, or none.
    DimensioneIncoerente,
    /// The number of tokens differs from the number of matrix rows.
    TokenMatriceDisallineati,
    /// The walk arrays differ in length, or a position does not increase.
    WalkDisallineato,
    /// No significant step is left after the hygiene filter.
    WalkVuotoDopoFiltro,
    /// The walk steps differ from the rows of the ColBERT matrix.
    CoerenzaPosizionaleFallita,
}

/// The description of each error.
pub open spec fn testo_di(e: ParseError) -> Seq<char> {
    match e {
        ParseError::DimensioneIncoerente => "dimensione dei vettori incoerente nella matrice per-token"@,
        ParseError::TokenMatriceDisallineati => "numero di token diverso dal numero di righe della matrice"@,
        ParseError::WalkDisallineato => "array del walk non allineati o posizione non crescente"@,
        ParseError::WalkVuotoDopoFiltro => "nessun passo significativo dopo il filtro d'igiene (st==0 e id>=4)"@,
        ParseError::CoerenzaPosizionaleFallita => "passi del walk diversi dalle righe della matrice ColBERT"@,
    }
}

impl ParseError {
    /// The human-readable description of the error.
    pub fn descrizione(&self) -> (r: &'static str)
        ensures
            r@ == testo_di(*self),
    {
        match self {
            ParseError::DimensioneIncoerente => {
                "dimensione dei vettori incoerente nella matrice per-token"
            },
            ParseError::TokenMatriceDisallineati => {
                "numero di token diverso dal numero di righe della matrice"
            },
            ParseError::WalkDisallineato => {
                "array del walk non allineati o posizione non crescente"
            },
            ParseError::WalkVuotoDopoFiltro => {
                "nessun passo significativo dopo il filtro d'igiene (st==0 e id>=4)"
            },
            ParseError::CoerenzaPosizionaleFallita => {
                "passi del walk diversi dalle righe della matrice ColBERT"
            },
        }
    }
}

/// The raw answer of the per-token ColBERT matrix endpoint.
#[derive(Clone, Debug, PartialEq)]
pub struct RawColbertTrajectory {
    /// The identifier of the sequence.
    pub sequence_id: String,
    /// The tokens in the exact order of the text.
    pub tokens: Vec<String>,
    /// The per-token matrix: `embeddings[i]` is the vector of token `i`.
    pub embeddings: Vec<Vec<Reale>>,
}

/// The raw walk of a fact: four arrays aligned by index, one entry per
/// occurrence, in order of appearance.
#[derive(Clone, Debug, PartialEq)]
pub struct RawWalk {
    /// The identifier of the sequence.
    pub sequence_id: String,
    /// The token touched by each step.
    pub ids: Vec<TokenId>,
    /// The signed weight of each step.
    pub w: Vec<WalkWeight>,
    /// The position of each step in the encoder input, strictly increasing.
    pub pos: Vec<u32>,
    /// The state of each step: `0` emitted, `1` suppressed, `2` padding.
    pub st: Vec<u8>,
}

/// A sequence of high-dimensional embeddings in trajectory order, all of the
/// same dimension.
#[derive(Clone, Debug, PartialEq)]
pub struct CrispTrajectory {
    /// The identifier of the sequence.
    pub sequence_id: String,
    /// The common dimension of every embedding.
    pub dimension: usize,
    /// The embeddings in trajectory order.
    pub embeddings: Vec<Vec<Reale>>,
}

/// The rows of a matrix, as sequences.
pub open spec fn righe(m: Seq<Vec<Reale>>) -> Seq<Seq<Reale>> {
    m.map_values(|r: Vec<Reale>| r@)
}

/// Every row has `dim` entries.
pub open spec fn righe_di_dimensione(m: Seq<Vec<Reale>>, dim: int) -> bool {
    forall|k: int| 0 <= k < m.len() ==> (#[trigger] m[k])@.len() == dim
}

/// Error: a zero dimension.
pub const ERR_DIMENSIONE_NULLA: &'static str = "La dimensione dell'embedding deve essere maggiore di zero";

/// Error: a vector that does not have the declared dimension.
pub const ERR_VETTORE_INCOERENTE: &'static str = "Incoerenza nella dimensione di un vettore della traiettoria";

fn copia_riga(r: &Vec<Reale>) -> (c: Vec<Reale>)
    ensures
        c@ == r@,
{
    let mut c: Vec<Reale> = Vec::new();
    let mut i: usize = 0;
    while i < r.len()
        invariant
            0 <= i <= r.len(),
            c@ == r@.take(i as int),
        decreases r.len() - i,
    {
        c.push(r[i]);
        i += 1;
        proof {
            assert(c@ =~= r@.take(i as int));
        }
    }
    proof {
        assert(r@.take(r@.len() as int) =~= r@);
    }
    c
}

fn copia_matrice(m: &Vec<Vec<Reale>>) -> (c: Vec<Vec<Reale>>)
    ensures
        righe(c@) == righe(m@),
        c@.len() == m@.len(),
        forall|k: int| 0 <= k < m@.len() ==> (#[trigger] c@[k])@ == m@[k]@,
{
    let mut c: Vec<Vec<Reale>> = Vec::new();
    let mut i: usize = 0;
    while i < m.len()
        invariant
            0 <= i <= m.len(),
            c@.len() == i,
            forall|k: int| 0 <= k < i ==> (#[trigger] c@[k])@ == m@[k]@,
        decreases m.len() - i,
    {
        let riga = copia_riga(&m[i]);
        c.push(riga);
        i += 1;
    }
    proof {
        assert(righe(c@) =~= righe(m@));
    }
    c
}

impl CrispTrajectory {
    /// Builds a trajectory, checking that the dimension is positive and
    /// that every embedding has it.
    pub fn new(sequence_id: String, dimension: usize, embeddings: Vec<Vec<Reale>>) -> (r: Result<
        Self,
        &'static str,
    >)
        ensures
            dimension == 0 ==> r == Err::<Self, &'static str>(ERR_DIMENSIONE_NULLA),
            dimension > 0 && !righe_di_dimensione(embeddings@, dimension as int) ==> r == Err::<
                Self,
                &'static str,
            >(ERR_VETTORE_INCOERENTE),
            dimension > 0 && righe_di_dimensione(embeddings@, dimension as int) ==> r == Ok::<
                Self,
                &'static str,
            >(CrispTrajectory { sequence_id, dimension, embeddings }),
    {
        if dimension == 0 {
            return Err(ERR_DIMENSIONE_NULLA);
        }
        let mut i: usize = 0;
        while i < embeddings.len()
            invariant
                0 <= i <= embeddings.len(),
                dimension > 0,
                forall|k: int| 0 <= k < i ==> (#[trigger] embeddings@[k])@.len() == dimension,
            decreases embeddings.len() - i,
        {
            if embeddings[i].len() != dimension {
                return Err(ERR_VETTORE_INCOERENTE);
            }
            i += 1;
        }
        Ok(CrispTrajectory { sequence_id, dimension, embeddings })
    }

    /// The number of embeddings (steps) of the trajectory.
    pub fn len(&self) -> (r: usize)
        ensures
            r == self.embeddings@.len(),
    {
        self.embeddings.len()
    }

    /// `true` when the trajectory has no step.
    pub fn is_empty(&self) -> (r: bool)
        ensures
            r == (self.embeddings@.len() == 0),
    {
        self.embeddings.len() == 0
    }
}

/// The dimension the rows of a matrix must share: that of the first row,
/// or 0 for an empty matrix.
pub open spec fn dimensione_prima_riga(m: Seq<Vec<Reale>>) -> int {
    if m.len() == 0 {
        0
    } else {
        m[0]@.len() as int
    }
}

/// Builds a `CrispTrajectory` from the raw per-token ColBERT matrix,
/// checking that tokens and rows match in number and that every row has
/// the dimension of the first, which must be positive.
pub fn colbert_to_trajectory(raw: &RawColbertTrajectory) -> (r: Result<CrispTrajectory, ParseError>)
    ensures
        raw.tokens@.len() != raw.embeddings@.len() ==> r == Err::<CrispTrajectory, ParseError>(
            ParseError::TokenMatriceDisallineati,
        ),
        raw.tokens@.len() == raw.embeddings@.len() && (!righe_di_dimensione(
            raw.embeddings@,
            dimensione_prima_riga(raw.embeddings@),
        ) || dimensione_prima_riga(raw.embeddings@) == 0) ==> r == Err::<
            CrispTrajectory,
            ParseError,
        >(ParseError::DimensioneIncoerente),
        r matches Ok(t) ==> {
            &&& t.sequence_id@ == raw.sequence_id@
            &&& t.dimension == dimensione_prima_riga(raw.embeddings@)
            &&& t.dimension > 0
            &&& righe(t.embeddings@) == righe(raw.embeddings@)
        },
        (raw.tokens@.len() == raw.embeddings@.len() && righe_di_dimensione(
            raw.embeddings@,
            dimensione_prima_riga(raw.embeddings@),
        ) && dimensione_prima_riga(raw.embeddings@) > 0) ==> r is Ok,
{
    if raw.tokens.len() != raw.embeddings.len() {
        return Err(ParseError::TokenMatriceDisallineati);
    }
    let dim = if raw.embeddings.len() == 0 {
        0
    } else {
        raw.embeddings[0].len()
    };
    let mut i: usize = 0;
    while i < raw.embeddings.len()
        invariant
            0 <= i <= raw.embeddings@.len(),
            raw.tokens@.len() == raw.embeddings@.len(),
            dim == dimensione_prima_riga(raw.embeddings@),
            forall|k: int| 0 <= k < i ==> (#[trigger] raw.embeddings@[k])@.len() == dim,
        decreases raw.embeddings.len() - i,
    {
        if raw.embeddings[i].len() != dim {
            return Err(ParseError::DimensioneIncoerente);
        }
        i += 1;
    }
    let embeddings = copia_matrice(&raw.embeddings);
    proof {
        assert forall|k: int| 0 <= k < embeddings@.len() implies (#[trigger] embeddings@[k])@.len()
            == dim by {
            assert(embeddings@[k]@ == raw.embeddings@[k]@);
        }
    }
    match CrispTrajectory::new(raw.sequence_id.clone(), dim, embeddings) {
        Ok(t) => Ok(t),
        Err(_) => Err(ParseError::DimensioneIncoerente),
    }
}

/// A step of the walk is significant when it was emitted (`st == 0`) and
/// its token is not special (`id >= 4`).
pub open spec fn spec_passo_significativo(st: u8, id: TokenId) -> bool {
    st == 0 && id >= 4
}

/// `true` if a step of the walk is significant: emitted and not special.
pub fn walk_passo_significativo(st: u8, id: TokenId) -> (r: bool)
    ensures
        r == spec_passo_significativo(st, id),
{
    st == 0 && id >= 4
}

/// The four arrays of the walk have the same length and the positions
/// strictly increase.
pub open spec fn walk_allineato(raw: RawWalk) -> bool {
    &&& raw.w@.len() == raw.ids@.len()
    &&& raw.pos@.len() == raw.ids@.len()
    &&& raw.st@.len() == raw.ids@.len()
    &&& forall|k: int| 1 <= k < raw.ids@.len() ==> raw.pos@[k - 1] < #[trigger] raw.pos@[k]
}

/// The weight a step keeps after the hygiene filter: its own if it is
/// significant, zero otherwise.
pub open spec fn peso_filtrato(raw: RawWalk, k: int) -> Reale {
    if spec_passo_significativo(raw.st@[k], raw.ids@[k]) {
        raw.w@[k]
    } else {
        ZERO
    }
}

/// Some step is significant.
pub open spec fn ha_passi_significativi(raw: RawWalk) -> bool {
    exists|k: int| 0 <= k < raw.ids@.len() && spec_passo_significativo(raw.st@[k], #[trigger] raw.ids@[k])
}

/// Every significant step has a finite weight.
pub open spec fn pesi_significativi_finiti(raw: RawWalk) -> bool {
    forall|k: int|
        0 <= k < raw.ids@.len() && spec_passo_significativo(raw.st@[k], #[trigger] raw.ids@[k])
            ==> e_finito(raw.w@[k])
}

/// The sequence of a walk: one position per step, holding the step's token
/// with its weight kept by the hygiene filter.
pub open spec fn sequenza_del_walk(raw: RawWalk, seq: OrderedSparseSequence) -> bool {
    &&& seq.ben_formata()
    &&& seq.offsets@ == Seq::new((raw.ids@.len() + 1) as nat, |p: int| p as u32)
    &&& seq.tokens@ == raw.ids@
    &&& seq.weights@ == Seq::new(raw.ids@.len(), |k: int| peso_filtrato(raw, k))
    &&& seq.global_signature[0] == firma(seq.attivazioni()).0
    &&& seq.global_signature[1] == firma(seq.attivazioni()).1
}

/// Builds the ordered-sparse sequence of a walk, keeping its positional
/// topology: every step stays a position, and the steps that are not
/// significant keep a zero weight. Fails when the arrays are not aligned or
/// the positions do not strictly increase, and when no step is significant
/// (or a significant step has a weight that is not finite).
pub fn walk_to_sequence(raw: &RawWalk) -> (r: Result<OrderedSparseSequence, ParseError>)
    requires
        raw.ids@.len() <= u32::MAX,
    ensures
        !walk_allineato(*raw) ==> r == Err::<OrderedSparseSequence, ParseError>(
            ParseError::WalkDisallineato,
        ),
        walk_allineato(*raw) && !(ha_passi_significativi(*raw) && pesi_significativi_finiti(*raw))
            ==> r == Err::<OrderedSparseSequence, ParseError>(ParseError::WalkVuotoDopoFiltro),
        walk_allineato(*raw) && ha_passi_significativi(*raw) && pesi_significativi_finiti(*raw)
            ==> (r matches Ok(seq) && sequenza_del_walk(*raw, seq)),
{
    let t = raw.ids.len();
    if raw.w.len() != t || raw.pos.len() != t || raw.st.len() != t {
        return Err(ParseError::WalkDisallineato);
    }
    let mut i: usize = 1;
    while i < t
        invariant
            t == raw.ids@.len(),
            raw.w@.len() == t && raw.pos@.len() == t && raw.st@.len() == t,
            1 <= i,
            i <= t || t == 0,
            forall|k: int| 1 <= k < i && k < t ==> raw.pos@[k - 1] < #[trigger] raw.pos@[k],
        decreases t - i,
    {
        if raw.pos[i] <= raw.pos[i - 1] {
            return Err(ParseError::WalkDisallineato);
        }
        i += 1;
    }
    let mut frames: Vec<Vec<Attivazione>> = Vec::new();
    let mut significativi: usize = 0;
    let mut i: usize = 0;
    while i < t
        invariant
            walk_allineato(*raw),
            t == raw.ids@.len(),
            0 <= i <= t,
            significativi <= i,
            frames@.len() == i,
            forall|k: int|
                0 <= k < i ==> (#[trigger] frames@[k])@ == seq![
                    (raw.ids@[k], peso_filtrato(*raw, k)),
                ],
            (significativi == 0) == !(exists|k: int|
                0 <= k < i && spec_passo_significativo(raw.st@[k], #[trigger] raw.ids@[k])),
        decreases t - i,
    {
        let id = raw.ids[i];
        let st = raw.st[i];
        let peso = if walk_passo_significativo(st, id) {
            significativi += 1;
            raw.w[i]
        } else {
            ZERO
        };
        let mut frame: Vec<Attivazione> = Vec::new();
        frame.push((id, peso));
        proof {
            assert(frame@ =~= seq![(raw.ids@[i as int], peso_filtrato(*raw, i as int))]);
        }
        frames.push(frame);
        i += 1;
    }
    if significativi == 0 {
        return Err(ParseError::WalkVuotoDopoFiltro);
    }
    proof {
        lemma_totale_singoli(frames@);
        lemma_primo_difetto(frames@, 0);
        if pesi_significativi_finiti(*raw) {
            assert forall|k: int| 0 <= k < frames@.len() implies difetto_posizione(
                #[trigger] frames@[k]@,
            ) is None by {
                assert(frames@[k]@[0] == (raw.ids@[k], peso_filtrato(*raw, k)));
            }
        } else {
            let k = choose|k: int|
                0 <= k < raw.ids@.len() && spec_passo_significativo(raw.st@[k], #[trigger] raw.ids@[k])
                    && !e_finito(raw.w@[k]);
            assert(frames@[k]@[0] == (raw.ids@[k], peso_filtrato(*raw, k)));
            assert(!e_finito(frames@[k]@[0].1));
            assert(difetto_posizione(frames@[k]@) is Some);
        }
    }
    match OrderedSparseSequence::from_frames(frames.as_slice()) {
        Ok(seq) => {
            proof {
                lemma_sequenza_singoli(*raw, frames@, seq);
            }
            Ok(seq)
        },
        Err(_) => Err(ParseError::WalkVuotoDopoFiltro),
    }
}

proof fn lemma_sequenza_singoli(raw: RawWalk, frames: Seq<Vec<Attivazione>>, seq: OrderedSparseSequence)
    requires
        walk_allineato(raw),
        frames.len() == raw.ids@.len(),
        forall|k: int|
            0 <= k < frames.len() ==> (#[trigger] frames[k])@ == seq![
                (raw.ids@[k], peso_filtrato(raw, k)),
            ],
        seq.ben_formata(),
        seq.posizioni() == frames.len(),
        forall|p: int|
            0 <= p < frames.len() ==> #[trigger] seq.offsets@[p + 1] == seq.offsets@[p]
                + frames[p]@.len(),
        forall|p: int|
            0 <= p < frames.len() ==> (#[trigger] seq.frame(p)).to_multiset()
                == frames[p]@.to_multiset(),
        seq.global_signature[0] == firma(seq.attivazioni()).0,
        seq.global_signature[1] == firma(seq.attivazioni()).1,
    ensures
        sequenza_del_walk(raw, seq),
{
    let n = frames.len();
    assert forall|p: int| 0 <= p <= n implies #[trigger] seq.offsets@[p] == p by {
        lemma_offset_identita(seq, frames, p);
    }
    assert(seq.offsets@ =~= Seq::new((n + 1) as nat, |p: int| p as u32));
    assert forall|p: int| 0 <= p < n implies (#[trigger] seq.tokens@[p] == raw.ids@[p]
        && seq.weights@[p] == peso_filtrato(raw, p)) by {
        let f = seq.frame(p);
        assert(seq.offsets@[p] == p);
        assert(seq.offsets@[p + 1] == p + 1);
        assert(f.len() == 1);
        assert(f[0] == (seq.tokens@[p], seq.weights@[p]));
        let g = frames[p]@;
        assert(f.to_multiset() == g.to_multiset());
        vstd::seq_lib::to_multiset_contains(f, f[0]);
        vstd::seq_lib::to_multiset_contains(g, f[0]);
        assert(g.contains(f[0]));
    }
    assert(seq.offsets@.len() == n + 1);
    assert(seq.tokens@.len() == seq.offsets@[n as int]);
    assert(seq.tokens@ =~= raw.ids@);
    assert(seq.weights@ =~= Seq::new(raw.ids@.len(), |k: int| peso_filtrato(raw, k)));
}

proof fn lemma_offset_identita(seq: OrderedSparseSequence, frames: Seq<Vec<Attivazione>>, p: int)
    requires
        seq.ben_formata(),
        seq.posizioni() == frames.len(),
        forall|k: int| 0 <= k < frames.len() ==> (#[trigger] frames[k])@.len() == 1,
        forall|q: int|
            0 <= q < frames.len() ==> #[trigger] seq.offsets@[q + 1] == seq.offsets@[q]
                + frames[q]@.len(),
        0 <= p <= frames.len(),
    ensures
        seq.offsets@[p] == p,
    decreases p,
{
    if p > 0 {
        lemma_offset_identita(seq, frames, p - 1);
        let q = p - 1;
        assert(seq.offsets@[q + 1] == seq.offsets@[q] + frames[q]@.len());
    }
}

/// Checks that the walk and the ColBERT matrix describe the same trajectory:
/// the total number of steps of the walk (special tokens included) equals
/// the number of matrix rows.
pub fn verifica_coerenza_posizionale(raw_walk: &RawWalk, colbert_righe: usize) -> (r: Result<
    (),
    ParseError,
>)
    ensures
        r == (if raw_walk.ids@.len() == colbert_righe {
            Ok::<(), ParseError>(())
        } else {
            Err::<(), ParseError>(ParseError::CoerenzaPosizionaleFallita)
        }),
{
    if raw_walk.ids.len() != colbert_righe {
        return Err(ParseError::CoerenzaPosizionaleFallita);
    }
    Ok(())
}

} // verus!

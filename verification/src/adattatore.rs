//! The answers of the embedding server, once decoded, turned into the raw
//! structures of the walk: the checks on the declared counts live here, the
//! decoding of the JSON text lives with the caller.

use crate::cammino::{righe, RawColbertTrajectory, RawWalk, WalkWeight};
use crate::ordinato::TokenId;
use crate::reale::Reale;
use vstd::prelude::*;

verus! {

/// The whole answer of the server: an envelope around one result per text.
#[derive(Clone, Debug)]
pub struct ServerResponse<T> {
    pub results: Vec<T>,
}

/// One result of the per-token ColBERT matrix endpoint.
#[derive(Clone, Debug)]
pub struct ColbertResultJson {
    /// The per-token matrix (`multivector`).
    pub embeddings: Vec<Vec<Reale>>,
    /// The declared number of tokens (`n_tokens`).
    pub n_tokens: usize,
    /// The common dimension of the vectors (`dim`).
    pub dimension: usize,
    /// The tokens, when the server sends them.
    pub tokens: Option<Vec<String>>,
}

/// One result of the ordered-sparse endpoint, flat form.
#[derive(Clone, Debug)]
pub struct WalkResultJson {
    /// The declared number of steps (`n`).
    pub count: usize,
    /// The token of each step.
    pub ids: Vec<TokenId>,
    /// The signed weight of each step (`weights`).
    pub w: Vec<WalkWeight>,
    /// The position of each step (`positions`).
    pub pos: Vec<u32>,
    /// The state of each step (`status`).
    pub st: Vec<u8>,
}

/// A datum that breaks the format of the server.
#[derive(Clone, Copy, Debug, PartialEq, Eq, Structural)]
pub enum AdapterError {
    /// The answer holds no result.
    RisultatoAssente,
    /// The declared number of steps differs from the length of the arrays.
    ConteggioIncoerente,
    /// The declared number of tokens differs from the tokens or the rows.
    ConteggioTokenIncoerente,
}

/// The description of each error.
pub open spec fn testo_di(e: AdapterError) -> Seq<char> {
    match e {
        AdapterError::RisultatoAssente => "la risposta del server non contiene risultati"@,
        AdapterError::ConteggioIncoerente => "il campo n non coincide con la lunghezza degli array del walk"@,
        AdapterError::ConteggioTokenIncoerente => "il campo n_tokens non coincide con la lunghezza di tokens/multivector"@,
    }
}

impl AdapterError {
    /// The human-readable description of the error.
    pub fn descrizione(&self) -> (r: &'static str)
        ensures
            r@ == testo_di(*self),
    {
        match self {
            AdapterError::RisultatoAssente => "la risposta del server non contiene risultati",
            AdapterError::ConteggioIncoerente => {
                "il campo n non coincide con la lunghezza degli array del walk"
            },
            AdapterError::ConteggioTokenIncoerente => {
                "il campo n_tokens non coincide con la lunghezza di tokens/multivector"
            },
        }
    }
}

fn copia<T: Copy>(v: &Vec<T>) -> (c: Vec<T>)
    ensures
        c@ == v@,
{
    let mut c: Vec<T> = Vec::new();
    let mut i: usize = 0;
    while i < v.len()
        invariant
            0 <= i <= v.len(),
            c@ == v@.take(i as int),
        decreases v.len() - i,
    {
        c.push(v[i]);
        i += 1;
        proof {
            assert(c@ =~= v@.take(i as int));
        }
    }
    proof {
        assert(v@.take(v@.len() as int) =~= v@);
    }
    c
}

fn copia_matrice(m: &Vec<Vec<Reale>>) -> (c: Vec<Vec<Reale>>)
    ensures
        righe(c@) == righe(m@),
{
    let mut c: Vec<Vec<Reale>> = Vec::new();
    let mut i: usize = 0;
    while i < m.len()
        invariant
            0 <= i <= m.len(),
            c@.len() == i,
            forall|k: int| 0 <= k < i ==> (#[trigger] c@[k])@ == m@[k]@,
        decreases m.len() - i,
    {
        c.push(copia(&m[i]));
        i += 1;
    }
    proof {
        assert(righe(c@) =~= righe(m@));
    }
    c
}

/// The texts of a list of strings.
pub open spec fn testi(v: Seq<String>) -> Seq<Seq<char>> {
    v.map_values(|s: String| s@)
}

fn copia_testi(v: &Vec<String>) -> (c: Vec<String>)
    ensures
        testi(c@) == testi(v@),
{
    let mut c: Vec<String> = Vec::new();
    let mut i: usize = 0;
    while i < v.len()
        invariant
            0 <= i <= v.len(),
            c@.len() == i,
            forall|k: int| 0 <= k < i ==> (#[trigger] c@[k])@ == v@[k]@,
        decreases v.len() - i,
    {
        c.push(v[i].clone());
        i += 1;
    }
    proof {
        assert(testi(c@) =~= testi(v@));
    }
    c
}

/// Builds the raw ColBERT trajectory from the first result of the answer,
/// checking that the declared number of tokens matches the tokens (when
/// sent) and the rows. Without tokens, empty placeholders stand for them.
pub fn colbert_json_to_raw(response: &ServerResponse<ColbertResultJson>, sequence_id: &str) -> (r:
    Result<RawColbertTrajectory, AdapterError>)
    ensures
        response.results@.len() == 0 ==> r == Err::<RawColbertTrajectory, AdapterError>(
            AdapterError::RisultatoAssente,
        ),
        response.results@.len() > 0 ==> ({
            let res = response.results@[0];
            let toks_ok = match res.tokens {
                Some(t) => t@.len() == res.n_tokens,
                None => true,
            };
            if !toks_ok || res.embeddings@.len() != res.n_tokens {
                r == Err::<RawColbertTrajectory, AdapterError>(
                    AdapterError::ConteggioTokenIncoerente,
                )
            } else {
                r matches Ok(raw) && raw.sequence_id@ == sequence_id@ && righe(raw.embeddings@)
                    == righe(res.embeddings@) && match res.tokens {
                    Some(t) => testi(raw.tokens@) == testi(t@),
                    None => testi(raw.tokens@) == Seq::new(
                        res.n_tokens as nat,
                        |k: int| Seq::<char>::empty(),
                    ),
                }
            }
        }),
{
    if response.results.len() == 0 {
        return Err(AdapterError::RisultatoAssente);
    }
    let result = &response.results[0];
    let tokens = match &result.tokens {
        Some(toks) => {
            if toks.len() != result.n_tokens {
                return Err(AdapterError::ConteggioTokenIncoerente);
            }
            copia_testi(toks)
        },
        None => {
            let mut v: Vec<String> = Vec::new();
            let mut i: usize = 0;
            while i < result.n_tokens
                invariant
                    0 <= i <= result.n_tokens,
                    v@.len() == i,
                    forall|k: int| 0 <= k < i ==> (#[trigger] v@[k])@ == Seq::<char>::empty(),
                decreases result.n_tokens - i,
            {
                v.push(String::new());
                i += 1;
            }
            proof {
                assert(testi(v@) =~= Seq::new(
                    result.n_tokens as nat,
                    |k: int| Seq::<char>::empty(),
                ));
            }
            v
        },
    };
    if result.embeddings.len() != result.n_tokens {
        return Err(AdapterError::ConteggioTokenIncoerente);
    }
    Ok(
        RawColbertTrajectory {
            sequence_id: sequence_id.to_owned(),
            tokens,
            embeddings: copia_matrice(&result.embeddings),
        },
    )
}

/// Builds the raw walk from the first result of the answer, checking that
/// the declared number of steps matches the length of the four arrays.
pub fn walk_json_to_raw(response: &ServerResponse<WalkResultJson>, sequence_id: &str) -> (r:
    Result<RawWalk, AdapterError>)
    ensures
        response.results@.len() == 0 ==> r == Err::<RawWalk, AdapterError>(
            AdapterError::RisultatoAssente,
        ),
        response.results@.len() > 0 ==> ({
            let res = response.results@[0];
            if res.ids@.len() != res.count || res.w@.len() != res.count || res.pos@.len()
                != res.count || res.st@.len() != res.count {
                r == Err::<RawWalk, AdapterError>(AdapterError::ConteggioIncoerente)
            } else {
                r matches Ok(raw) && raw.sequence_id@ == sequence_id@ && raw.ids@ == res.ids@
                    && raw.w@ == res.w@ && raw.pos@ == res.pos@ && raw.st@ == res.st@
            }
        }),
{
    if response.results.len() == 0 {
        return Err(AdapterError::RisultatoAssente);
    }
    let result = &response.results[0];
    if result.ids.len() != result.count || result.w.len() != result.count || result.pos.len()
        != result.count || result.st.len() != result.count {
        return Err(AdapterError::ConteggioIncoerente);
    }
    Ok(
        RawWalk {
            sequence_id: sequence_id.to_owned(),
            ids: copia(&result.ids),
            w: copia(&result.w),
            pos: copia(&result.pos),
            st: copia(&result.st),
        },
    )
}

} // verus!

//! The late-interaction scorer: the native provider of the MaxSim score and
//! the shape that two token matrices must have before they are compared.

use crate::cammino::righe_di_dimensione;
use crate::reale::Reale;
use vstd::prelude::*;

verus! {

/// The native MaxSim provider: the score computed in-process.
#[derive(Debug, Default, Clone, Copy)]
pub struct NativeMaxSim;

/// The two token matrices can be compared: neither is empty, and all their
/// rows have the dimension of the first query token, which is not zero.
pub open spec fn forma_confrontabile(q: Seq<Vec<Reale>>, d: Seq<Vec<Reale>>) -> bool {
    &&& q.len() > 0
    &&& d.len() > 0
    &&& q[0]@.len() > 0
    &&& righe_di_dimensione(q, q[0]@.len() as int)
    &&& righe_di_dimensione(d, q[0]@.len() as int)
}

/// All rows of `m` have `dim` values.
fn tutte_di_dimensione(m: &Vec<Vec<Reale>>, dim: usize) -> (r: bool)
    ensures
        r == righe_di_dimensione(m@, dim as int),
{
    let mut i: usize = 0;
    while i < m.len()
        invariant
            0 <= i <= m@.len(),
            forall|h: int| 0 <= h < i ==> (#[trigger] m@[h])@.len() == dim,
        decreases m@.len() - i,
    {
        if m[i].len() != dim {
            return false;
        }
        i += 1;
    }
    true
}

/// The dimension of the tokens when the query and document matrices can be
/// compared, `None` (the score withdraws) otherwise.
pub fn dimensione_comune(query_tokens: &Vec<Vec<Reale>>, doc_tokens: &Vec<Vec<Reale>>) -> (r:
    Option<usize>)
    ensures
        r is Some <==> forma_confrontabile(query_tokens@, doc_tokens@),
        r matches Some(dim) ==> dim == query_tokens@[0]@.len(),
{
    if query_tokens.len() == 0 || doc_tokens.len() == 0 {
        return None;
    }
    let dim = query_tokens[0].len();
    if dim == 0 {
        return None;
    }
    if !tutte_di_dimensione(query_tokens, dim) || !tutte_di_dimensione(doc_tokens, dim) {
        return None;
    }
    Some(dim)
}

} // verus!

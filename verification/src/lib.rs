//! Verified core of the semantic geography library: budget and verdicts of
//! the pre-inference filter, Pareto comparisons, the proximity graph and the
//! ordered walk of a text.

pub mod adattatore;
pub mod allineamento;
pub mod budget;
pub mod cammino;
pub mod colbert;
pub mod reale;
pub mod combinatore;
pub mod costruzione;
pub mod gate;
pub mod grafo;
pub mod metriche;
pub mod ordinato;
pub mod pareto;
pub mod ponte;

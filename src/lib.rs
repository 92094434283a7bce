//! A validated, indexable and serialisable representation of the SPQR decomposition of an
//! undirected graph: connected components, their blocks (biconnected components) and the SPQR
//! trees (triconnected components) of the blocks.
//!
//! - [`graph`]: the graph being decomposed.
//! - [`indices`]: typed handles into the arenas of a decomposition.
//! - [`decomposition`]: the finished decomposition and the rules it obeys.
//! - [`builder`]: piecewise construction, checking every rule as the pieces arrive.
//! - [`binary`]: a byte dump of a whole decomposition, and reading it back.
//! - [`text`] and [`plain_spqr_file`]: the line-oriented `.spqr` text format.
use vstd::prelude::*;

pub mod binary;
pub mod builder;
pub mod decomposition;
pub mod graph;
pub mod indices;
pub mod plain_spqr_file;
pub mod text;

verus! {

} // verus!

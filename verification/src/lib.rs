//! Static analyzer for dataflow-graph intermediate representations.
//!
//! Given a directed graph of dataflow operators connected by typed streams,
//! the library decides two global properties: determinism (no operator's
//! output depends on anything but its inputs) and CALM safety (every
//! externally observable output can be produced without coordination,
//! because everything feeding it is monotone and lattice-typed).

use vstd::prelude::*;

pub mod analysis;
pub mod annotate;
pub mod codec;
pub mod graph;
pub mod json;
pub mod model;
pub mod semantics;
pub mod strutil;

verus! {

/// Nondeterminism class of an operator.
#[derive(Debug, Clone, Copy, PartialEq, Eq, Structural)]
pub enum NdEffect {
    Deterministic,
    LocallyNonDet,
    ExternalNonDet,
}

/// Monotonicity class of an operator.
#[derive(Debug, Clone, Copy, PartialEq, Eq, Structural)]
pub enum Monotonicity {
    Always,
    Never,
    Depends,
}

/// Operator semantics: nondeterminism effect paired with monotonicity.
#[derive(Debug, Clone, Copy, PartialEq, Eq, Structural)]
pub struct OpSemantics {
    pub nd: NdEffect,
    pub monotone: Monotonicity,
}

} // verus!

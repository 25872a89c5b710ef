//! The failures that end a turn.

use crate::scalar::Scalar;
use vstd::prelude::*;

verus! {

/// Why a step of the protocol could not be carried out. None of these is
/// retried: each one ends the turn.
#[derive(Clone, Debug)]
pub enum ProtocolError {
    /// A turn holds more actions than a request has room for.
    TooManyActions { count: usize },
    /// The exponent at `index` has no inverse modulo the group order.
    NonInvertibleExponent { index: usize, exponent: Scalar },
    /// A constraint program printed `found` records where the step asks
    /// for `sections` times `cells` of them.
    WrongRecordCount { sections: usize, cells: usize, found: usize },
    /// Record `line` of a program's output lacks a field, or a field of it
    /// is no decimal numeral.
    MalformedRecord { line: usize },
    /// The proof accumulator refused a step.
    FoldFailed,
}

} // verus!

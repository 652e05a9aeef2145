//! Operators and what their inputs must be.

use vstd::prelude::*;

verus! {

/// An operator with its parameters and sources.
#[derive(Debug)]
pub struct Operator<P, R, V> {
    pub params: P,
    pub raster_sources: Vec<R>,
    pub vector_sources: Vec<V>,
}

/// The numbers from `start` up to `end`, without `end`.
#[derive(Debug, Clone, Copy, PartialEq, Eq, Structural)]
pub struct InputRange {
    pub start: usize,
    pub end: usize,
}

/// The inputs of an operator are not as they must be.
#[derive(Debug, Clone, Copy)]
pub enum OperatorError {
    InvalidNumberOfRasterInputs { expected: InputRange, found: usize },
    InvalidNumberOfVectorInputs { expected: InputRange, found: usize },
}

} // verus!

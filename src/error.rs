//! The ways in which building or using the quantisation engine can fail.
use vstd::prelude::*;

verus! {

/// Why an engine could not be built, or could not produce GPU tables.
#[derive(Clone, Copy, Debug, PartialEq, Eq, Structural)]
pub enum EngineError {
    /// The declared cell size is zero, or a glyph bitmap does not have the
    /// declared number of rows, or a row does not have the declared length.
    Validation,
    /// The palette or the glyph set is empty.
    EmptyInput,
    /// The palette, the glyph set or the cell area is too large for the
    /// byte-indexed, 32-bit-packed GPU tables.
    CapacityExceeded,
}

impl EngineError {
    /// A short description of the error.
    pub fn message(&self) -> (s: &'static str) {
        match self {
            EngineError::Validation => "a glyph bitmap does not match the declared cell size",
            EngineError::EmptyInput => "the palette or the glyph set is empty",
            EngineError::CapacityExceeded => "the palette, glyph set or cell area exceeds the GPU table limits",
        }
    }
}

} // verus!

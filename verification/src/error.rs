use vstd::prelude::*;

verus! {

/// Why a run of the pipeline stopped. Every failure is final: no stage
/// retries, and the value names the input that caused it.
#[derive(Clone, Copy, PartialEq, Eq, Structural, Debug)]
pub enum PipelineError {
    /// No vertex is present.
    EmptyGeometry,
    /// Face number `face` names vertex `index`, which does not exist.
    InvalidFaceIndex { face: usize, index: usize },
    /// All vertices coincide, so no axis has a positive extent.
    DegenerateGeometry,
    /// The mesh source could not be read.
    LoadFailure,
    /// The frame sink could not commit the frame of step `step`.
    RenderFailure { step: u32 },
}

} // verus!

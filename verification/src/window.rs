//! Window shapes.
use vstd::prelude::*;

verus! {

/// Window shapes for spectral analysis and FIR design.
#[derive(Debug, Clone, Copy, PartialEq, Eq, Structural)]
pub enum WindowKind {
    Rectangular,
    Hann,
    Hamming,
    Blackman,
    BlackmanHarris,
}

} // verus!

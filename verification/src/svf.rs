//! Response modes of the state-variable filter.
use vstd::prelude::*;

verus! {

/// Which output of the state-variable filter is taken.
#[derive(Debug, Clone, Copy, PartialEq, Eq, Structural)]
pub enum SvfMode {
    Lowpass,
    Highpass,
    Bandpass,
    Notch,
}

} // verus!

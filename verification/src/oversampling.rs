//! Sizing of the half-band filters of the 2x oversampler.
use vstd::prelude::*;

verus! {

/// Tap count of the oversampler's FIR: the requested count made odd (so
/// the filter has a centre tap), by setting its lowest bit.
pub fn odd_tap_count(num_taps: usize) -> (n: usize)
    ensures
        n == (if num_taps % 2 == 1 { num_taps as int } else { num_taps + 1 }),
{
    let n = num_taps | 1;
    assert(n == (if num_taps % 2 == 1 { num_taps } else { (num_taps + 1) as usize })) by (bit_vector)
        requires
            n == num_taps | 1,
    ;
    n
}

} // verus!

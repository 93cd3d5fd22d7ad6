//! Conversion of a pair of on-chip ADC readings into the three values the
//! sampling firmware streams: input 0, input 1 negated, and their difference.
//!
//! Both inputs are 12-bit codes over a 3300 mV range. Input 0 is seen through
//! a 3:5 divider, input 1 through a 1000:1745 one.

use vstd::prelude::*;

verus! {

/// Largest code of the 12-bit converter, plus one.
pub const ADC_CODES: u16 = 4096;

/// Millivolts at input 0 for a code: `raw * 3300 / 4096 * 5000 / 3000`,
/// each division truncating.
pub open spec fn input0_millivolts(raw: u16) -> int {
    raw as int * 3300 / 4096 * 5000 / 3000
}

/// Millivolts at input 1 for a code: `raw * 3300 / 4096 * 1745 / 1000`,
/// each division truncating.
pub open spec fn input1_millivolts(raw: u16) -> int {
    raw as int * 3300 / 4096 * 1745 / 1000
}

proof fn lemma_input_bounds(raw: u16)
    requires
        raw < 4096,
    ensures
        0 <= raw as int * 3300 / 4096 <= 3300,
        0 <= input0_millivolts(raw) <= 5500,
        0 <= input1_millivolts(raw) <= 5759,
{
    let pin = raw as int * 3300 / 4096;
    assert(0 <= pin <= 3300) by (nonlinear_arith)
        requires
            0 <= raw < 4096,
            pin == raw as int * 3300 / 4096,
    ;
    assert(0 <= pin * 5000 / 3000 <= 5500) by (nonlinear_arith)
        requires
            0 <= pin <= 3300,
    ;
    assert(0 <= pin * 1745 / 1000 <= 5759) by (nonlinear_arith)
        requires
            0 <= pin <= 3300,
    ;
}

/// The three values sent for one pair of readings: input 0 in millivolts,
/// input 1 in millivolts negated, and input 0 minus input 1.
pub fn scale_inputs(raw0: u16, raw1: u16) -> (r: (i16, i16, i16))
    requires
        raw0 < ADC_CODES,
        raw1 < ADC_CODES,
    ensures
        r.0 as int == input0_millivolts(raw0),
        r.1 as int == -input1_millivolts(raw1),
        r.2 as int == input0_millivolts(raw0) - input1_millivolts(raw1),
{
    proof {
        lemma_input_bounds(raw0);
        lemma_input_bounds(raw1);
    }
    let v0: i32 = raw0 as i32 * 3300 / 4096 * 5000 / 3000;
    let v1: i32 = raw1 as i32 * 3300 / 4096 * 1745 / 1000;
    let v2: i32 = v0 - v1;
    (v0 as i16, -(v1 as i16), v2 as i16)
}

} // verus!

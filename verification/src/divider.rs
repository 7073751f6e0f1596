use fixed::traits::ToFixed;
use vstd::prelude::*;

verus! {

/// The largest integer part plus one that a 24.8 fixed-point number holds.
pub const U24F8_INT_LIMIT: u32 = 0x100_0000;

/// The integer clock divider that makes the PIO state machine run at four
/// ticks per SPI bit: `clk_sys / (4 * frequency)`, rounded down.
pub open spec fn spec_divider_int(clk_sys: u32, frequency: u32) -> int {
    clk_sys as int / (4 * frequency as int)
}

/// The inputs for which the divider can be computed: a non-zero frequency
/// whose quadruple fits in 32 bits, and a quotient that fits the integer
/// part of a 24.8 fixed-point number.
pub open spec fn divider_computable(clk_sys: u32, frequency: u32) -> bool {
    &&& frequency > 0
    &&& 4 * frequency as int <= u32::MAX as int
    &&& spec_divider_int(clk_sys, frequency) < U24F8_INT_LIMIT as int
}

/// The raw bits of the 24.8 fixed-point clock divider: the integer quotient
/// shifted left by the eight fractional bits.
pub open spec fn spec_divider_bits(clk_sys: u32, frequency: u32) -> int {
    spec_divider_int(clk_sys, frequency) * 256
}

/// Converts an integer to the 24.8 fixed-point type `fixed::types::U24F8` with
/// `fixed::traits::ToFixed::to_fixed` and hands back its raw bits
/// (`to_bits`). The crate's documentation and source show that the
/// conversion of an unsigned integer that fits adds eight zero fractional
/// bits, so the bits are the integer times 256; an integer of 2^24 or more
/// does not fit and makes `to_fixed` panic when debug assertions are on,
/// which `requires` leaves out.
#[verifier::external_body]
fn u24f8_bits_from_int(n: u32) -> (bits: u32)
    requires
        n < U24F8_INT_LIMIT,
    ensures
        bits as int == n as int * 256,
{
    let f: fixed::types::U24F8 = n.to_fixed();
    f.to_bits()
}

/// Computes the raw bits of the PIO clock divider that clocks an SPI bus at
/// `frequency` from a system clock of `clk_sys` Hz (four state machine ticks
/// per bit).
pub fn clock_divider_bits(clk_sys: u32, frequency: u32) -> (bits: u32)
    requires
        divider_computable(clk_sys, frequency),
    ensures
        bits as int == spec_divider_bits(clk_sys, frequency),
{
    let ticks_per_second: u32 = 4 * frequency;
    let quotient: u32 = clk_sys / ticks_per_second;
    u24f8_bits_from_int(quotient)
}

} // verus!

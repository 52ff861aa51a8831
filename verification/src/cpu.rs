//! The processor's control of floating-point arithmetic.
use vstd::prelude::*;

verus! {

/// The bit that takes denormal operands for zero.
pub const DENORMALS_ARE_ZERO: u32 = 0x40;

/// The bit that flushes denormal results to zero.
pub const FLUSH_TO_ZERO: u32 = 0x8000;

/// The control word with both bits set that keep denormal numbers out of the
/// arithmetic, and everything else as it was.
pub fn enable_denormal_protection(csr: u32) -> (r: u32)
    ensures
        r & DENORMALS_ARE_ZERO == DENORMALS_ARE_ZERO,
        r & FLUSH_TO_ZERO == FLUSH_TO_ZERO,
        r & !(DENORMALS_ARE_ZERO | FLUSH_TO_ZERO) == csr & !(DENORMALS_ARE_ZERO | FLUSH_TO_ZERO),
        r == csr | (FLUSH_TO_ZERO | DENORMALS_ARE_ZERO),
        r & 0x8040 == 0x8040,
        r & !0x8040u32 == csr & !0x8040u32,
{
    let r: u32 = csr | (FLUSH_TO_ZERO | DENORMALS_ARE_ZERO);
    proof {
        assert(r & 0x40 == 0x40 && r & 0x8000 == 0x8000 && r & !(0x40u32 | 0x8000u32) == csr & !(
        0x40u32 | 0x8000u32) && r & 0x8040 == 0x8040 && r & !0x8040u32 == csr & !0x8040u32)
            by (bit_vector)
            requires
                r == csr | (0x8000u32 | 0x40u32),
        ;
    }
    r
}

} // verus!

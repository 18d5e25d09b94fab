//! The RAM window and the address validator.
//!
//! The loader may write to, and later execute from, exactly one fixed
//! address range. A `Write` request is accepted only when the whole
//! destination range lies inside that window; the end of the range is
//! exclusive, so a write may end exactly at `RAM_PROGRAM_END_ADDRESS`
//! but never reach past it.

use vstd::prelude::*;

verus! {

/// First writable (and executable) address of the RAM window.
pub const RAM_PROGRAM_START_ADDRESS: u32 = 0x2002_0000;

/// One past the last writable address of the RAM window.
pub const RAM_PROGRAM_END_ADDRESS: u32 = 0x2004_0000;

/// Number of bytes in the RAM window.
pub const RAM_WINDOW_LEN: usize = 0x2_0000;

/// A destination range is valid when it lies entirely inside the RAM
/// window. Stated over unbounded integers, so a length that would
/// overflow 32-bit arithmetic is simply a range that reaches past the
/// window's end and is invalid.
pub open spec fn valid_address_range(start: int, len: int) -> bool {
    &&& RAM_PROGRAM_START_ADDRESS <= start
    &&& start + len <= RAM_PROGRAM_END_ADDRESS
}

/// Decides whether the write range `[start_address, start_address + length)`
/// lies entirely inside the RAM window.
///
/// The end address is computed with checked arithmetic: a sum that
/// overflows 32 bits is rejected, never wrapped.
pub fn is_valid_address_range(start_address: u32, length: u32) -> (valid: bool)
    ensures
        valid == valid_address_range(start_address as int, length as int),
        start_address as int + length as int > u32::MAX as int ==> !valid,
{
    if start_address < RAM_PROGRAM_START_ADDRESS {
        false
    } else if start_address > RAM_PROGRAM_END_ADDRESS {
        false
    } else {
        length <= RAM_PROGRAM_END_ADDRESS - start_address
    }
}

} // verus!

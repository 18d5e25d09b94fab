//! The address validator against the RAM window's bounds.

use ramloader::window::{
    is_valid_address_range, RAM_PROGRAM_END_ADDRESS, RAM_PROGRAM_START_ADDRESS,
};

#[test]
fn accepts_ranges_inside_the_window() {
    assert!(is_valid_address_range(RAM_PROGRAM_START_ADDRESS, 16));
    assert!(is_valid_address_range(RAM_PROGRAM_START_ADDRESS, 0));
    assert!(is_valid_address_range(RAM_PROGRAM_START_ADDRESS + 0x100, 0x200));
    assert!(is_valid_address_range(RAM_PROGRAM_END_ADDRESS - 4, 4));
    assert!(is_valid_address_range(
        RAM_PROGRAM_START_ADDRESS,
        RAM_PROGRAM_END_ADDRESS - RAM_PROGRAM_START_ADDRESS
    ));
}

#[test]
fn rejects_ranges_outside_the_window() {
    assert!(!is_valid_address_range(RAM_PROGRAM_START_ADDRESS - 1, 4));
    assert!(!is_valid_address_range(0, 4));
    assert!(!is_valid_address_range(RAM_PROGRAM_END_ADDRESS - 2, 4));
    assert!(!is_valid_address_range(RAM_PROGRAM_END_ADDRESS, 1));
    assert!(!is_valid_address_range(RAM_PROGRAM_END_ADDRESS + 1, 0));
    assert!(!is_valid_address_range(
        RAM_PROGRAM_START_ADDRESS,
        RAM_PROGRAM_END_ADDRESS - RAM_PROGRAM_START_ADDRESS + 1
    ));
}

#[test]
fn rejects_ranges_whose_end_overflows() {
    assert!(!is_valid_address_range(u32::MAX, 2));
    assert!(!is_valid_address_range(u32::MAX, u32::MAX));
    assert!(!is_valid_address_range(RAM_PROGRAM_START_ADDRESS, u32::MAX));
    assert!(!is_valid_address_range(RAM_PROGRAM_END_ADDRESS - 1, u32::MAX));
}

//! The write executor: raw bytes into the RAM window.
//!
//! On the device the destination is bare memory with no protection,
//! so the address validator is the only safety gate. The executor
//! therefore demands a pre-validated range outright: there is no way
//! to reach the copy except through a range the validator accepts.
//! The window itself is held here as a byte store indexed from
//! `RAM_PROGRAM_START_ADDRESS`.

use vstd::prelude::*;
use vstd::pervasive::VecAdditionalExecFns;

use crate::window::{
    valid_address_range, RAM_PROGRAM_END_ADDRESS, RAM_PROGRAM_START_ADDRESS, RAM_WINDOW_LEN,
};

verus! {

/// What a write does to the window's contents: the range starting at
/// `start_address` is replaced by `data`, every other byte stays.
pub open spec fn ram_written(ram: Seq<u8>, start_address: u32, data: Seq<u8>) -> Seq<u8> {
    let off = start_address - RAM_PROGRAM_START_ADDRESS;
    ram.subrange(0, off) + data + ram.subrange(off + data.len(), ram.len() as int)
}

/// The writable and executable RAM window, one byte per address of
/// `[RAM_PROGRAM_START_ADDRESS, RAM_PROGRAM_END_ADDRESS)`.
pub struct RamWindow {
    bytes: Vec<u8>,
}

impl View for RamWindow {
    type V = Seq<u8>;

    /// The window's contents; index `i` models the byte at address
    /// `RAM_PROGRAM_START_ADDRESS + i`.
    closed spec fn view(&self) -> Seq<u8> {
        self.bytes@
    }
}

impl RamWindow {
    /// The store covers the window exactly.
    pub open spec fn wf(&self) -> bool {
        self@.len() == RAM_WINDOW_LEN
    }

    /// A window holding zeroes everywhere.
    pub fn new() -> (ram: RamWindow)
        ensures
            ram.wf(),
            forall|i: int| 0 <= i < RAM_WINDOW_LEN ==> ram@[i] == 0u8,
    {
        let mut bytes: Vec<u8> = Vec::new();
        let mut i: usize = 0;
        while i < RAM_WINDOW_LEN
            invariant
                i <= RAM_WINDOW_LEN,
                bytes@.len() == i,
                forall|j: int| 0 <= j < i ==> bytes@[j] == 0u8,
            decreases RAM_WINDOW_LEN - i,
        {
            bytes.push(0);
            i = i + 1;
        }
        RamWindow { bytes }
    }

    /// Copies `data` byte for byte to the memory beginning at
    /// `start_address`. Only ranges the address validator accepts
    /// can reach this copy.
    pub fn write(&mut self, start_address: u32, data: &Vec<u8>)
        requires
            old(self).wf(),
            valid_address_range(start_address as int, data@.len() as int),
        ensures
            final(self).wf(),
            final(self)@ == ram_written(old(self)@, start_address, data@),
    {
        let off = (start_address - RAM_PROGRAM_START_ADDRESS) as usize;
        let mut i: usize = 0;
        while i < data.len()
            invariant
                old(self).wf(),
                valid_address_range(start_address as int, data@.len() as int),
                off == start_address - RAM_PROGRAM_START_ADDRESS,
                i <= data@.len(),
                self@.len() == RAM_WINDOW_LEN,
                forall|j: int| 0 <= j < i ==> self@[off + j] == data@[j],
                forall|j: int|
                    0 <= j < RAM_WINDOW_LEN && !(off <= j < off + i) ==> self@[j] == old(
                        self,
                    )@[j],
            decreases data@.len() - i,
        {
            self.bytes.set(off + i, data[i]);
            i = i + 1;
        }
        proof {
            assert(self@ =~= ram_written(old(self)@, start_address, data@));
        }
    }

    /// The byte the window holds at `address`.
    pub fn read_byte(&self, address: u32) -> (b: u8)
        requires
            self.wf(),
            RAM_PROGRAM_START_ADDRESS <= address < RAM_PROGRAM_END_ADDRESS,
        ensures
            b == self@[address - RAM_PROGRAM_START_ADDRESS],
    {
        self.bytes[(address - RAM_PROGRAM_START_ADDRESS) as usize]
    }
}

} // verus!

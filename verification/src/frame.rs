//! Frame reassembly from the raw byte stream.
//!
//! Bytes arrive from the transport in chunks of arbitrary size. The
//! accumulator appends them one by one to a single bounded buffer;
//! the byte that equals the delimiter completes a frame, which is
//! handed out whole (delimiter included) and the buffer starts over.
//! A byte that would grow the buffer past its capacity is a buffer
//! overflow: the spoiled frame is dropped and the buffer starts over.

use vstd::prelude::*;

use crate::cobs::COBS_DELIMITER;

verus! {

/// Capacity `C` of the frame buffer: the largest encoded frame,
/// delimiter included, that either side of the protocol produces.
pub const FRAME_CAPACITY: usize = 1024;

/// More bytes than the frame buffer can hold arrived with no
/// delimiter among them.
#[derive(Debug, PartialEq, Eq, Clone, Copy)]
pub struct BufferOverflow;

/// The bounded frame buffer and its reassembly rule.
pub struct FrameAccumulator {
    buf: Vec<u8>,
}

impl View for FrameAccumulator {
    type V = Seq<u8>;

    /// The bytes of the frame under reassembly, in arrival order.
    closed spec fn view(&self) -> Seq<u8> {
        self.buf@
    }
}

impl FrameAccumulator {
    /// The buffer never outgrows the frame capacity.
    pub open spec fn wf(&self) -> bool {
        self@.len() <= FRAME_CAPACITY
    }

    /// An empty accumulator: no frame under way.
    pub fn new() -> (acc: FrameAccumulator)
        ensures
            acc@ == Seq::<u8>::empty(),
            acc.wf(),
    {
        FrameAccumulator { buf: Vec::new() }
    }

    /// Takes in one received byte. The delimiter completes and yields
    /// the frame; a byte past capacity is an overflow and drops the
    /// spoiled frame; any other byte is kept for later.
    pub fn push_byte(&mut self, byte: u8) -> (r: Result<Option<Vec<u8>>, BufferOverflow>)
        requires
            old(self).wf(),
        ensures
            final(self).wf(),
            old(self)@.len() >= FRAME_CAPACITY ==> r is Err && final(self)@
                == Seq::<u8>::empty(),
            old(self)@.len() < FRAME_CAPACITY && byte == COBS_DELIMITER ==> (r matches Ok(
                Some(frame),
            ) && frame@ == old(self)@.push(byte) && final(self)@ == Seq::<u8>::empty()),
            old(self)@.len() < FRAME_CAPACITY && byte != COBS_DELIMITER ==> (r matches Ok(None)
                && final(self)@ == old(self)@.push(byte)),
    {
        if self.buf.len() >= FRAME_CAPACITY {
            self.buf.clear();
            Err(BufferOverflow)
        } else {
            self.buf.push(byte);
            if byte == COBS_DELIMITER {
                let mut frame: Vec<u8> = Vec::new();
                crate::cobs::push_range(&mut frame, &self.buf, 0, self.buf.len());
                self.buf.clear();
                proof {
                    assert(frame@ =~= old(self)@.push(byte));
                }
                Ok(Some(frame))
            } else {
                Ok(None)
            }
        }
    }
}

} // verus!

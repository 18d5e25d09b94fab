//! The dispatch state machine that drives the protocol.
//!
//! The loader takes the byte stream in one byte at a time. Bytes
//! gather in the frame buffer until the delimiter completes a frame;
//! the frame is decoded and the request routed: a `Write` is
//! validated, performed on the RAM window and answered with exactly
//! one response frame, an `Execute` performs the execution handoff —
//! the terminal transition, after which the loader absorbs bytes
//! without effect and never responds again. A spoiled frame (buffer
//! overflow or a frame that decodes to no request) is dropped and
//! reassembly starts over.

use vstd::prelude::*;

use crate::cobs::COBS_DELIMITER;
use crate::codec::{
    decode_request, encode_response, parse_request_frame, response_frame,
};
use crate::frame::{FrameAccumulator, FRAME_CAPACITY};
use crate::messages::{Host2TargetMessage, HostMessageModel, Target2HostMessage};
use crate::ram::{ram_written, RamWindow};
use crate::window::{
    is_valid_address_range, valid_address_range, RAM_PROGRAM_START_ADDRESS, RAM_WINDOW_LEN,
};

verus! {

/// The current frame cannot go on: it outgrew the buffer, or its
/// bytes decode to no request. The spoiled frame is dropped and the
/// loader keeps listening.
#[derive(Debug, PartialEq, Eq, Clone, Copy)]
pub enum LoaderError {
    /// More bytes than the frame buffer holds, no delimiter among
    /// them.
    BufferOverflow,
    /// A delimiter closed a frame that does not spell a request.
    MalformedFrame,
}

/// What one received byte led to.
#[derive(Debug, PartialEq, Eq)]
pub enum LoaderEvent {
    /// The byte was absorbed; the frame is still under way (or the
    /// loader has already handed execution over and stays silent).
    Accumulating,
    /// A `Write` was handled: here is the one response frame to send.
    Respond(Vec<u8>),
    /// An `Execute` was handled: the vector-table base points at the
    /// image; jump to it and never come back.
    Boot,
}

/// The mathematical state of the loader.
#[verifier::ext_equal]
pub struct LoaderModel {
    /// Bytes of the frame under reassembly.
    pub buffer: Seq<u8>,
    /// Contents of the RAM window.
    pub ram: Seq<u8>,
    /// The vector-table base register.
    pub vector_table_base: u32,
    /// Whether the execution handoff has happened.
    pub executing: bool,
}

/// What one received byte led to, as a mathematical value.
pub enum StepModel {
    /// Byte absorbed, nothing to do.
    Quiet,
    /// One response frame to send.
    Reply(Seq<u8>),
    /// Jump into the loaded image.
    Boot,
    /// The frame buffer overflowed; the frame was dropped.
    Overflow,
    /// The frame decoded to no request and was dropped.
    Malformed,
}

impl LoaderModel {
    /// The frame buffer is bounded and the RAM store covers the
    /// window.
    pub open spec fn wf(self) -> bool {
        self.buffer.len() <= FRAME_CAPACITY && self.ram.len() == RAM_WINDOW_LEN
    }
}

/// One step of the dispatch state machine: the state after taking in
/// `byte`, and what the byte led to.
pub open spec fn loader_step(m: LoaderModel, byte: u8) -> (LoaderModel, StepModel) {
    if m.executing {
        (m, StepModel::Quiet)
    } else if m.buffer.len() >= FRAME_CAPACITY {
        (LoaderModel { buffer: Seq::empty(), ..m }, StepModel::Overflow)
    } else if byte != COBS_DELIMITER {
        (LoaderModel { buffer: m.buffer.push(byte), ..m }, StepModel::Quiet)
    } else {
        match parse_request_frame(m.buffer.push(byte)) {
            Some(HostMessageModel::Write { start_address, data }) => if valid_address_range(
                start_address as int,
                data.len() as int,
            ) {
                (
                    LoaderModel {
                        buffer: Seq::empty(),
                        ram: ram_written(m.ram, start_address, data),
                        ..m
                    },
                    StepModel::Reply(response_frame(Target2HostMessage::WriteOk)),
                )
            } else {
                (
                    LoaderModel { buffer: Seq::empty(), ..m },
                    StepModel::Reply(response_frame(Target2HostMessage::InvalidAddress)),
                )
            },
            Some(HostMessageModel::Execute) => (
                LoaderModel {
                    buffer: Seq::empty(),
                    ram: m.ram,
                    vector_table_base: RAM_PROGRAM_START_ADDRESS,
                    executing: true,
                },
                StepModel::Boot,
            ),
            None => (LoaderModel { buffer: Seq::empty(), ..m }, StepModel::Malformed),
        }
    }
}

/// The state machine run over a whole chunk of bytes: the final state
/// and what each byte led to, in order.
pub open spec fn loader_run(m: LoaderModel, bytes: Seq<u8>) -> (LoaderModel, Seq<StepModel>)
    decreases bytes.len(),
{
    if bytes.len() == 0 {
        (m, Seq::empty())
    } else {
        let first = loader_step(m, bytes[0]);
        let rest = loader_run(first.0, bytes.skip(1));
        (rest.0, seq![first.1] + rest.1)
    }
}

/// Frame reassembly does not care how the byte stream is chopped into
/// chunks: running two chunks one after the other is running their
/// concatenation, state and outcomes alike.
pub proof fn lemma_run_chunks(m: LoaderModel, c1: Seq<u8>, c2: Seq<u8>)
    ensures
        loader_run(m, c1 + c2).0 == loader_run(loader_run(m, c1).0, c2).0,
        loader_run(m, c1 + c2).1 == loader_run(m, c1).1 + loader_run(loader_run(m, c1).0, c2).1,
    decreases c1.len(),
{
    if c1.len() == 0 {
        assert(c1 + c2 =~= c2);
        assert(loader_run(m, c1).1 + loader_run(m, c2).1 =~= loader_run(m, c2).1);
    } else {
        let first = loader_step(m, c1[0]);
        assert((c1 + c2)[0] == c1[0]);
        assert((c1 + c2).skip(1) =~= c1.skip(1) + c2);
        lemma_run_chunks(first.0, c1.skip(1), c2);
        assert(seq![first.1] + (loader_run(first.0, c1.skip(1)).1 + loader_run(
            loader_run(m, c1).0,
            c2,
        ).1) =~= (seq![first.1] + loader_run(first.0, c1.skip(1)).1) + loader_run(
            loader_run(m, c1).0,
            c2,
        ).1);
    }
}

/// The execution handoff is terminal: once `executing` holds, no byte
/// changes the state and no byte is ever answered.
pub proof fn lemma_executing_is_terminal(m: LoaderModel, bytes: Seq<u8>)
    requires
        m.executing,
    ensures
        loader_run(m, bytes).0 == m,
        loader_run(m, bytes).1.len() == bytes.len(),
        forall|i: int|
            0 <= i < bytes.len() ==> loader_run(m, bytes).1[i] == StepModel::Quiet,
    decreases bytes.len(),
{
    if bytes.len() > 0 {
        lemma_executing_is_terminal(m, bytes.skip(1));
        assert forall|i: int|
            0 <= i < bytes.len() implies loader_run(m, bytes).1[i] == StepModel::Quiet by {
            if i > 0 {
                assert(loader_run(m, bytes).1[i] == loader_run(m, bytes.skip(1)).1[i - 1]);
            }
        }
    }
}

/// Feeding more bytes than the frame buffer holds, with no delimiter
/// among them, reports a buffer overflow — at exactly the byte that
/// would not fit — rather than truncating or writing anything.
pub proof fn lemma_overflow_without_delimiter(m: LoaderModel, bytes: Seq<u8>)
    requires
        !m.executing,
        m.buffer.len() <= FRAME_CAPACITY,
        m.buffer.len() + bytes.len() > FRAME_CAPACITY,
        forall|i: int| 0 <= i < bytes.len() ==> bytes[i] != COBS_DELIMITER,
    ensures
        loader_run(m, bytes).1[FRAME_CAPACITY - m.buffer.len()] == StepModel::Overflow,
    decreases bytes.len(),
{
    let first = loader_step(m, bytes[0]);
    lemma_run_len(first.0, bytes.skip(1));
    if m.buffer.len() < FRAME_CAPACITY {
        assert(forall|i: int|
            0 <= i < bytes.skip(1).len() ==> bytes.skip(1)[i] == bytes[i + 1]);
        lemma_overflow_without_delimiter(first.0, bytes.skip(1));
    }
}

/// A run answers every byte with exactly one outcome.
pub proof fn lemma_run_len(m: LoaderModel, bytes: Seq<u8>)
    ensures
        loader_run(m, bytes).1.len() == bytes.len(),
    decreases bytes.len(),
{
    if bytes.len() > 0 {
        lemma_run_len(loader_step(m, bytes[0]).0, bytes.skip(1));
    }
}

/// The value of one `push_byte` outcome as a mathematical step.
pub open spec fn step_model_of(r: Result<LoaderEvent, LoaderError>) -> StepModel {
    match r {
        Ok(LoaderEvent::Accumulating) => StepModel::Quiet,
        Ok(LoaderEvent::Respond(f)) => StepModel::Reply(f@),
        Ok(LoaderEvent::Boot) => StepModel::Boot,
        Err(LoaderError::BufferOverflow) => StepModel::Overflow,
        Err(LoaderError::MalformedFrame) => StepModel::Malformed,
    }
}

/// The protocol engine: frame buffer, RAM window, and the model of
/// the core registers the handoff touches.
pub struct Loader {
    accumulator: FrameAccumulator,
    ram: RamWindow,
    vector_table_base: u32,
    executing: bool,
}

impl View for Loader {
    type V = LoaderModel;

    closed spec fn view(&self) -> LoaderModel {
        LoaderModel {
            buffer: self.accumulator@,
            ram: self.ram@,
            vector_table_base: self.vector_table_base,
            executing: self.executing,
        }
    }
}

impl Loader {
    /// The loader's parts are well formed.
    pub open spec fn wf(&self) -> bool {
        self@.wf()
    }

    /// A fresh loader: empty frame buffer, zeroed RAM window, the
    /// vector-table base still at the reset value, not yet executing.
    pub fn new() -> (loader: Loader)
        ensures
            loader.wf(),
            loader@.buffer == Seq::<u8>::empty(),
            forall|i: int| 0 <= i < RAM_WINDOW_LEN ==> loader@.ram[i] == 0u8,
            loader@.vector_table_base == 0u32,
            !loader@.executing,
    {
        Loader {
            accumulator: FrameAccumulator::new(),
            ram: RamWindow::new(),
            vector_table_base: 0,
            executing: false,
        }
    }

    /// Routes one decoded request. A `Write` is validated and, when
    /// the range is inside the RAM window, performed; either way it
    /// earns exactly one response. An `Execute` performs the
    /// execution handoff and earns none.
    pub fn handle_request(&mut self, request: &Host2TargetMessage) -> (response: Option<
        Target2HostMessage,
    >)
        requires
            old(self).wf(),
        ensures
            final(self).wf(),
            final(self)@.buffer == old(self)@.buffer,
            match request@ {
                HostMessageModel::Write { start_address, data } => {
                    &&& final(self)@.executing == old(self)@.executing
                    &&& final(self)@.vector_table_base == old(self)@.vector_table_base
                    &&& if valid_address_range(start_address as int, data.len() as int) {
                        final(self)@.ram == ram_written(old(self)@.ram, start_address, data)
                            && response == Some(Target2HostMessage::WriteOk)
                    } else {
                        final(self)@.ram == old(self)@.ram && response == Some(
                            Target2HostMessage::InvalidAddress,
                        )
                    }
                },
                HostMessageModel::Execute => {
                    &&& final(self)@.ram == old(self)@.ram
                    &&& final(self)@.vector_table_base == RAM_PROGRAM_START_ADDRESS
                    &&& final(self)@.executing
                    &&& response is None
                },
            },
    {
        match request {
            Host2TargetMessage::Write { start_address, data } => {
                let length_fits = data.len() <= u32::MAX as usize;
                if length_fits && is_valid_address_range(*start_address, data.len() as u32) {
                    self.ram.write(*start_address, data);
                    Some(Target2HostMessage::WriteOk)
                } else {
                    Some(Target2HostMessage::InvalidAddress)
                }
            },
            Host2TargetMessage::Execute => {
                self.execute_handoff();
                None
            },
        }
    }

    /// The execution handoff, modelled: point the vector-table base
    /// register at the start of the RAM window and enter the terminal
    /// `executing` state. On the device the jump into the image's
    /// reset vector follows and never returns.
    pub fn execute_handoff(&mut self)
        requires
            old(self).wf(),
        ensures
            final(self).wf(),
            final(self)@.buffer == old(self)@.buffer,
            final(self)@.ram == old(self)@.ram,
            final(self)@.vector_table_base == RAM_PROGRAM_START_ADDRESS,
            final(self)@.executing,
    {
        self.vector_table_base = RAM_PROGRAM_START_ADDRESS;
        self.executing = true;
    }

    /// Takes in one byte from the transport and steps the state
    /// machine exactly as `loader_step` says.
    pub fn push_byte(&mut self, byte: u8) -> (r: Result<LoaderEvent, LoaderError>)
        requires
            old(self).wf(),
        ensures
            final(self).wf(),
            final(self)@ == loader_step(old(self)@, byte).0,
            step_model_of(r) == loader_step(old(self)@, byte).1,
    {
        if self.executing {
            return Ok(LoaderEvent::Accumulating);
        }
        match self.accumulator.push_byte(byte) {
            Err(_) => {
                proof {
                    assert(self@ =~= loader_step(old(self)@, byte).0);
                }
                Err(LoaderError::BufferOverflow)
            },
            Ok(None) => {
                proof {
                    assert(self@ =~= loader_step(old(self)@, byte).0);
                }
                Ok(LoaderEvent::Accumulating)
            },
            Ok(Some(frame)) => {
                match decode_request(&frame) {
                    Err(_) => {
                        proof {
                            assert(self@ =~= loader_step(old(self)@, byte).0);
                        }
                        Err(LoaderError::MalformedFrame)
                    },
                    Ok(request) => {
                        let response = self.handle_request(&request);
                        match response {
                            Some(message) => {
                                let reply = encode_response(&message);
                                proof {
                                    assert(self@ =~= loader_step(old(self)@, byte).0);
                                }
                                Ok(LoaderEvent::Respond(reply))
                            },
                            None => {
                                proof {
                                    assert(self@ =~= loader_step(old(self)@, byte).0);
                                }
                                Ok(LoaderEvent::Boot)
                            },
                        }
                    },
                }
            },
        }
    }
    /// Takes in a whole received chunk, byte by byte, and reports
    /// what each byte led to: the loop the transport's read side
    /// drives.
    pub fn process_chunk(&mut self, chunk: &Vec<u8>) -> (events: Vec<
        Result<LoaderEvent, LoaderError>,
    >)
        requires
            old(self).wf(),
        ensures
            final(self).wf(),
            final(self)@ == loader_run(old(self)@, chunk@).0,
            events@.len() == chunk@.len(),
            forall|i: int|
                0 <= i < chunk@.len() ==> step_model_of(events@[i]) == loader_run(
                    old(self)@,
                    chunk@,
                ).1[i],
    {
        let mut events: Vec<Result<LoaderEvent, LoaderError>> = Vec::new();
        let mut i: usize = 0;
        proof {
            assert(chunk@.take(0) =~= Seq::<u8>::empty());
        }
        while i < chunk.len()
            invariant
                self.wf(),
                i <= chunk@.len(),
                events@.len() == i,
                self@ == loader_run(old(self)@, chunk@.take(i as int)).0,
                forall|j: int|
                    0 <= j < i ==> step_model_of(events@[j]) == loader_run(
                        old(self)@,
                        chunk@.take(i as int),
                    ).1[j],
            decreases chunk@.len() - i,
        {
            let ghost mid = loader_run(old(self)@, chunk@.take(i as int)).0;
            let byte = chunk[i];
            let event = self.push_byte(byte);
            events.push(event);
            proof {
                lemma_run_chunks(old(self)@, chunk@.take(i as int), seq![byte]);
                lemma_run_len(old(self)@, chunk@.take(i as int));
                assert(chunk@.take(i as int + 1) =~= chunk@.take(i as int) + seq![byte]);
                let first = loader_step(mid, byte);
                assert(seq![byte][0] == byte);
                assert(seq![byte].skip(1) =~= Seq::<u8>::empty());
                assert(loader_run(first.0, Seq::<u8>::empty()).0 == first.0);
                assert(loader_run(first.0, Seq::<u8>::empty()).1 == Seq::<StepModel>::empty());
                assert(loader_run(mid, seq![byte]).0 == first.0);
                assert(loader_run(mid, seq![byte]).1 =~= seq![first.1]);
                assert(loader_run(old(self)@, chunk@.take(i as int + 1)).1 =~= loader_run(
                    old(self)@,
                    chunk@.take(i as int),
                ).1 + seq![first.1]);
            }
            i = i + 1;
        }
        proof {
            assert(chunk@.take(chunk@.len() as int) =~= chunk@);
        }
        events
    }

    /// The value of the vector-table base register.
    pub fn vector_table_base(&self) -> (base: u32)
        ensures
            base == self@.vector_table_base,
    {
        self.vector_table_base
    }

    /// Whether the execution handoff has happened.
    pub fn is_executing(&self) -> (executing: bool)
        ensures
            executing == self@.executing,
    {
        self.executing
    }

    /// The RAM window, for reading the loaded image back.
    pub fn ram(&self) -> (ram: &RamWindow)
        ensures
            ram@ == self@.ram,
            self.wf() ==> ram.wf(),
    {
        &self.ram
    }
}

} // verus!

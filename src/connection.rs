//! The decisions of the message loop: when to stop, when to read more, and
//! which message to hand to dispatch. The caller performs the reads and writes.
use vstd::prelude::*;
use vstd::utf8::*;
use crate::framing::{Expected, ReadError, ReadOutcome, expected_read, read_message, reads_as};

verus! {

/// What the loop does next.
#[derive(Debug)]
pub enum LoopStep {
    /// End the loop with success: shutdown was requested or the input ended.
    Stop,
    /// Read more bytes from the input (or report its end) and poll again.
    ReadMore,
    /// Dispatch this message body, then frame and write any response.
    Handle(String),
}

pub struct ConnectionView {
    pub buffer: Seq<u8>,
    pub closed: bool,
    pub mid_message: bool,
}

/// Input buffered from the stream, whether it has ended, and whether a
/// message has been partly read.
pub struct Connection {
    buffer: Vec<u8>,
    closed: bool,
    mid_message: bool,
}

impl View for Connection {
    type V = ConnectionView;

    closed spec fn view(&self) -> ConnectionView {
        ConnectionView { buffer: self.buffer@, closed: self.closed, mid_message: self.mid_message }
    }
}

impl Connection {
    pub fn new() -> (r: Connection)
        ensures
            r@.buffer.len() == 0,
            !r@.closed,
            !r@.mid_message,
    {
        Connection { buffer: Vec::new(), closed: false, mid_message: false }
    }

    /// Adds bytes read from the input.
    pub fn feed(&mut self, bytes: &[u8])
        ensures
            final(self)@ == (ConnectionView { buffer: old(self)@.buffer + bytes@, ..old(self)@ }),
    {
        let mut i: usize = 0;
        let ghost start = self.buffer@;
        while i < bytes.len()
            invariant
                i <= bytes@.len(),
                self.buffer@ == start + bytes@.subrange(0, i as int),
                start == old(self).buffer@,
                self.closed == old(self).closed,
                self.mid_message == old(self).mid_message,
            decreases bytes@.len() - i,
        {
            self.buffer.push(bytes[i]);
            i += 1;
            assert(self.buffer@ =~= start + bytes@.subrange(0, i as int));
        }
        assert(bytes@.subrange(0, bytes@.len() as int) =~= bytes@);
    }

    /// Records that the input has ended.
    pub fn close(&mut self)
        ensures
            final(self)@ == (ConnectionView { closed: true, ..old(self)@ }),
    {
        self.closed = true;
    }

    /// One decision of the loop. Shutdown is honoured only between messages,
    /// never while one is partly read.
    pub fn poll(&mut self, exit_requested: bool) -> (r: Result<LoopStep, ReadError>)
        ensures
            !old(self)@.mid_message && exit_requested ==> (r matches Ok(LoopStep::Stop)) && final(self)@
                == old(self)@,
            old(self)@.mid_message || !exit_requested ==> match expected_read(
                old(self)@.buffer,
                old(self)@.closed,
            ) {
                Expected::Closed => (r matches Ok(LoopStep::Stop)) && final(self)@ == old(self)@,
                Expected::NeedMore => (r matches Ok(LoopStep::ReadMore)) && final(self)@ == (
                ConnectionView { mid_message: true, ..old(self)@ }),
                Expected::Fail(e) => r == Err::<LoopStep, ReadError>(e),
                Expected::Message { start, len } => {
                    &&& r matches Ok(LoopStep::Handle(body))
                    &&& r->Ok_0->Handle_0@ == decode_utf8(
                        old(self)@.buffer.subrange(start, start + len),
                    )
                    &&& final(self)@ == (ConnectionView {
                        buffer: old(self)@.buffer.subrange(start + len, old(self)@.buffer.len() as int),
                        closed: old(self)@.closed,
                        mid_message: false,
                    })
                },
            },
    {
        if !self.mid_message && exit_requested {
            return Ok(LoopStep::Stop);
        }
        let outcome = read_message(self.buffer.as_slice(), self.closed);
        assert(reads_as(self.buffer@, self.closed, outcome));
        match outcome {
            Ok(ReadOutcome::Closed) => Ok(LoopStep::Stop),
            Ok(ReadOutcome::NeedMore) => {
                self.mid_message = true;
                Ok(LoopStep::ReadMore)
            },
            Err(e) => Err(e),
            Ok(ReadOutcome::Message { body, consumed }) => {
                let ghost old_buffer = self.buffer@;
                let mut rest: Vec<u8> = Vec::new();
                let mut i: usize = consumed;
                while i < self.buffer.len()
                    invariant
                        consumed <= i <= old_buffer.len(),
                        self.buffer@ == old_buffer,
                        rest@ == old_buffer.subrange(consumed as int, i as int),
                    decreases old_buffer.len() - i,
                {
                    rest.push(self.buffer[i]);
                    i += 1;
                    assert(rest@ =~= old_buffer.subrange(consumed as int, i as int));
                }
                self.buffer = rest;
                self.mid_message = false;
                Ok(LoopStep::Handle(body))
            },
        }
    }
}

} // verus!

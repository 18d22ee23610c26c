//! Writing one frame at a time to a stream that takes it in pieces.
use crate::text::join;
use crate::types::{IoError, IoErrorKind};
use vstd::prelude::*;

verus! {

/// Progress of the frame that is being written.
pub enum WriteState {
    /// Nothing is being written.
    Idle,
    /// `written` bytes of the frame are out.
    Frame { bytes: Vec<u8>, written: usize, payload_len: usize },
    /// The whole frame is out and the stream is to be flushed.
    Flush { payload_len: usize },
}

/// The error of a stream that closed during `operation`.
pub open spec fn closed_message(operation: Seq<char>) -> Seq<char> {
    operation + ": stream closed"@
}

/// Says that a stream closed during `operation`.
pub fn closed(operation: &str) -> (error: IoError)
    ensures
        error.says(IoErrorKind::Closed, closed_message(operation@)),
{
    IoError { kind: IoErrorKind::Closed, message: join(operation, ": stream closed") }
}

impl WriteState {
    /// A frame that is being written has bytes left.
    pub open spec fn wf(self) -> bool {
        self matches WriteState::Frame { bytes, written, .. } ==> written < bytes@.len()
    }

    /// The bytes of the frame that are still to be written.
    pub open spec fn unwritten(self) -> Seq<u8> {
        match self {
            WriteState::Frame { bytes, written, .. } => bytes@.skip(written as int),
            _ => Seq::empty(),
        }
    }

    /// How many payload bytes the frame under way carries.
    pub open spec fn payload(self) -> Option<usize> {
        match self {
            WriteState::Idle => None,
            WriteState::Frame { payload_len, .. } => Some(payload_len),
            WriteState::Flush { payload_len } => Some(payload_len),
        }
    }

    /// Begins to write a frame.
    pub fn begin(bytes: Vec<u8>, payload_len: usize) -> (state: WriteState)
        requires
            bytes@.len() > 0,
        ensures
            state.wf(),
            state is Frame,
            state.unwritten() == bytes@,
            state.payload() == Some(payload_len),
    {
        let state = WriteState::Frame { bytes, written: 0, payload_len };
        assert(state.unwritten() =~= bytes@);
        state
    }

    /// The bytes to hand to the stream next.
    pub fn next_bytes(&self) -> (out: Vec<u8>)
        requires
            self.wf(),
        ensures
            out@ == self.unwritten(),
    {
        match self {
            WriteState::Frame { bytes, written, .. } => {
                let out = crate::octets::copy_range(bytes.as_slice(), *written, bytes.len());
                assert(out@ =~= self.unwritten());
                out
            },
            _ => {
                let out: Vec<u8> = Vec::new();
                assert(out@ =~= self.unwritten());
                out
            },
        }
    }

    /// The stream took `count` bytes. When it took none it is closed, which is
    /// said by `message`; when it took the last of the frame, the stream is to
    /// be flushed.
    pub fn wrote(&mut self, count: usize, message: &str) -> (done: Result<(), IoError>)
        requires
            old(self).wf(),
            *old(self) is Frame,
            count <= old(self).unwritten().len(),
        ensures
            final(self).wf(),
            final(self).payload() == old(self).payload(),
            final(self).unwritten() == old(self).unwritten().skip(count as int),
            final(self).unwritten() == left_after(old(self).unwritten(), seq![count as nat]),
            (*final(self) is Flush) == (count == old(self).unwritten().len()),
            (*final(self) is Frame) == (count < old(self).unwritten().len()),
            done is Err <==> count == 0,
            done matches Err(error) ==> error.says(IoErrorKind::Closed, message@),
    {
        let mut finished: Option<usize> = None;
        proof {
            reveal_with_fuel(left_after, 2);
            assert(seq![count as nat].drop_last() =~= Seq::empty());
        }
        if count == 0 {
            assert(old(self).unwritten().skip(0) =~= old(self).unwritten());
            return Err(IoError::new(IoErrorKind::Closed, message));
        }
        match self {
            WriteState::Frame { bytes, written, payload_len } => {
                let total: usize = bytes.len();
                *written = *written + count;
                if *written == total {
                    finished = Some(*payload_len);
                }
            },
            _ => {},
        }
        match finished {
            Some(payload_len) => {
                *self = WriteState::Flush { payload_len };
            },
            None => {},
        }
        assert(self.unwritten() =~= old(self).unwritten().skip(count as int));
        Ok(())
    }

    /// The stream was flushed: the packet is sent.
    pub fn flushed(&mut self) -> (payload_len: usize)
        requires
            *old(self) is Flush,
        ensures
            *final(self) is Idle,
            Some(payload_len) == old(self).payload(),
    {
        let payload_len: usize = match self {
            WriteState::Flush { payload_len } => *payload_len,
            _ => 0,
        };
        *self = WriteState::Idle;
        payload_len
    }
}

/// What is left of a frame after writes of these lengths.
pub open spec fn left_after(frame: Seq<u8>, counts: Seq<nat>) -> Seq<u8>
    decreases counts.len(),
{
    if counts.len() == 0 {
        frame
    } else {
        left_after(frame, counts.drop_last()).skip(counts.last() as int)
    }
}

/// What writes of these lengths put out, one after the other.
pub open spec fn put_out(frame: Seq<u8>, counts: Seq<nat>) -> Seq<u8>
    decreases counts.len(),
{
    if counts.len() == 0 {
        Seq::empty()
    } else {
        put_out(frame, counts.drop_last()) + left_after(frame, counts.drop_last()).take(
            counts.last() as int,
        )
    }
}

/// Whether no write takes more than is left.
pub open spec fn possible(frame: Seq<u8>, counts: Seq<nat>) -> bool
    decreases counts.len(),
{
    counts.len() == 0 || (possible(frame, counts.drop_last()) && counts.last() <= left_after(
        frame,
        counts.drop_last(),
    ).len())
}

/// However a stream cuts a frame, what it took and what is left make up the
/// frame: once nothing is left, the frame is out, whole and in order.
pub proof fn law_written_in_order(frame: Seq<u8>, counts: Seq<nat>)
    requires
        possible(frame, counts),
    ensures
        put_out(frame, counts) + left_after(frame, counts) == frame,
        left_after(frame, counts).len() == 0 ==> put_out(frame, counts) == frame,
    decreases counts.len(),
{
    if counts.len() > 0 {
        law_written_in_order(frame, counts.drop_last());
        assert(put_out(frame, counts) + left_after(frame, counts) =~= put_out(
            frame,
            counts.drop_last(),
        ) + left_after(frame, counts.drop_last()));
    }
    assert(put_out(frame, counts) + left_after(frame, counts) =~= frame);
    if left_after(frame, counts).len() == 0 {
        assert(put_out(frame, counts) =~= frame);
    }
}

} // verus!

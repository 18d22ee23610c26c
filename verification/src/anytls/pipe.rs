//! A pipe from a session to the reader of one of its streams.
use crate::octets::copy_range;
use crate::types::{StreamError, StreamErrorKind};
use vstd::prelude::*;

verus! {

/// What was written and not read yet: the rest of a piece that was read in
/// part, and the pieces after it.
pub struct PipeInner {
    pub closed: bool,
    pub read_error: Option<StreamError>,
    pub sender_open: bool,
    pub queue: Vec<Vec<u8>>,
    pub buffer: Vec<u8>,
}

/// What a read comes to.
pub enum PipeRead {
    /// Bytes; none where the pipe has ended or an empty piece was written.
    Bytes(Vec<u8>),
    /// The read failed.
    Failed(StreamError),
    /// There is nothing to read yet.
    Wait,
}

/// The pieces one after the other.
pub open spec fn flat(pieces: Seq<Vec<u8>>) -> Seq<u8>
    decreases pieces.len(),
{
    if pieces.len() == 0 {
        Seq::empty()
    } else {
        flat(pieces.drop_last()) + pieces.last()@
    }
}

proof fn lemma_flat_first(pieces: Seq<Vec<u8>>)
    requires
        pieces.len() > 0,
    ensures
        flat(pieces) == pieces[0]@ + flat(pieces.skip(1)),
    decreases pieces.len(),
{
    if pieces.len() == 1 {
        assert(pieces.drop_last() =~= Seq::empty());
        assert(pieces.skip(1) =~= Seq::empty());
        assert(flat(pieces) =~= pieces[0]@ + flat(pieces.skip(1)));
    } else {
        lemma_flat_first(pieces.drop_last());
        assert(pieces.drop_last().skip(1) =~= pieces.skip(1).drop_last());
        assert(pieces.skip(1).last() == pieces.last());
        assert(flat(pieces) =~= pieces[0]@ + flat(pieces.skip(1)));
    }
}

impl PipeInner {
    /// What was written and not read yet.
    pub open spec fn pending(self) -> Seq<u8> {
        self.buffer@ + flat(self.queue@)
    }

    /// Whether there is anything that a read can take.
    pub open spec fn has_data(self) -> bool {
        self.buffer@.len() > 0 || self.queue@.len() > 0
    }

    /// The piece that the next read takes from.
    pub open spec fn front(self) -> Seq<u8> {
        if self.buffer@.len() > 0 {
            self.buffer@
        } else {
            self.queue@[0]@
        }
    }

    /// Whether a read of up to `room` bytes came to `read` and made this of a
    /// pipe. What was written comes first, a piece or what is left of one at a
    /// time; then the error that the pipe was closed with, once; then the end.
    pub open spec fn gave(self, before: PipeInner, room: usize, read: PipeRead) -> bool {
        &&& self.closed == before.closed
        &&& self.sender_open == before.sender_open
        &&& if before.has_data() {
            let front = before.front();
            let count = if room < front.len() {
                room as int
            } else {
                front.len() as int
            };
            &&& self.read_error == before.read_error
            &&& read matches PipeRead::Bytes(bytes) && bytes@ == front.take(count) && bytes@
                + self.pending() == before.pending()
            &&& self.buffer@ == front.skip(count)
            &&& self.queue@ == (if before.buffer@.len() > 0 {
                before.queue@
            } else {
                before.queue@.skip(1)
            })
        } else if before.sender_open {
            read is Wait && self == before
        } else {
            &&& !self.has_data()
            &&& self.read_error is None
            &&& match before.read_error {
                Some(error) => read == PipeRead::Failed(error),
                None => read matches PipeRead::Bytes(bytes) && bytes@.len() == 0,
            }
        }
    }

    /// Whether a write of a piece came to `written` and made this of a pipe.
    pub open spec fn wrote(
        self,
        before: PipeInner,
        piece: Seq<u8>,
        written: Result<usize, StreamError>,
    ) -> bool {
        &&& self.closed == before.closed
        &&& self.read_error == before.read_error
        &&& self.sender_open == before.sender_open
        &&& self.buffer == before.buffer
        &&& if before.closed || !before.sender_open {
            &&& written matches Err(error) && error.says(
                StreamErrorKind::BrokenPipe,
                "Pipe closed"@,
            )
            &&& self.queue == before.queue
        } else {
            &&& written matches Ok(count) && count == piece.len()
            &&& self.queue@.len() == before.queue@.len() + 1
            &&& self.queue@.drop_last() == before.queue@
            &&& self.queue@.last()@ == piece
            &&& self.pending() == before.pending() + piece
        }
    }

    /// An open pipe with nothing in it.
    pub fn new() -> (pipe: PipeInner)
        ensures
            !pipe.closed,
            pipe.read_error is None,
            pipe.sender_open,
            !pipe.has_data(),
    {
        PipeInner {
            closed: false,
            read_error: None,
            sender_open: true,
            queue: Vec::new(),
            buffer: Vec::new(),
        }
    }

    /// Reads up to `room` bytes. What was written comes first; then the error
    /// that the pipe was closed with, once; then the end.
    pub fn read(&mut self, room: usize) -> (read: PipeRead)
        ensures
            final(self).gave(*old(self), room, read),
    {
        let ghost before = self.pending();
        if self.buffer.len() == 0 && self.queue.len() > 0 {
            let piece = self.queue.remove(0);
            proof {
                lemma_flat_first(old(self).queue@);
                assert(self.queue@ =~= old(self).queue@.skip(1));
            }
            let count: usize = if room < piece.len() {
                room
            } else {
                piece.len()
            };
            let bytes = copy_range(piece.as_slice(), 0, count);
            assert(bytes@ =~= piece@.take(count as int));
            self.buffer = copy_range(piece.as_slice(), count, piece.len());
            assert(bytes@ + self.pending() =~= before);
            return PipeRead::Bytes(bytes);
        }
        if self.buffer.len() > 0 {
            let count: usize = if room < self.buffer.len() {
                room
            } else {
                self.buffer.len()
            };
            let bytes = copy_range(self.buffer.as_slice(), 0, count);
            assert(bytes@ =~= self.buffer@.take(count as int));
            let rest = copy_range(self.buffer.as_slice(), count, self.buffer.len());
            self.buffer = rest;
            assert(bytes@ + self.pending() =~= before);
            return PipeRead::Bytes(bytes);
        }
        if self.sender_open {
            return PipeRead::Wait;
        }
        match self.read_error.take() {
            Some(error) => PipeRead::Failed(error),
            None => PipeRead::Bytes(Vec::new()),
        }
    }

    /// The deadline passed while a read was waiting.
    pub fn deadline_reached(&mut self) -> (read: PipeRead)
        ensures
            final(self).closed == old(self).closed,
            final(self).sender_open == old(self).sender_open,
            final(self).queue == old(self).queue,
            final(self).buffer == old(self).buffer,
            final(self).read_error is None,
            match old(self).read_error {
                Some(error) => read == PipeRead::Failed(error),
                None => if old(self).sender_open {
                    read matches PipeRead::Failed(error) && error.says(
                        StreamErrorKind::TimedOut,
                        "read deadline reached"@,
                    )
                } else {
                    read matches PipeRead::Bytes(bytes) && bytes@.len() == 0
                },
            },
    {
        match self.read_error.take() {
            Some(error) => PipeRead::Failed(error),
            None => {
                if self.sender_open {
                    PipeRead::Failed(
                        StreamError::new(StreamErrorKind::TimedOut, "read deadline reached"),
                    )
                } else {
                    PipeRead::Bytes(Vec::new())
                }
            },
        }
    }

    /// Writes a piece.
    pub fn write(&mut self, piece: &[u8]) -> (written: Result<usize, StreamError>)
        ensures
            final(self).wrote(*old(self), piece@, written),
    {
        if self.closed || !self.sender_open {
            return Err(StreamError::new(StreamErrorKind::BrokenPipe, "Pipe closed"));
        }
        let copy = copy_range(piece, 0, piece.len());
        assert(copy@ =~= piece@);
        let ghost before = self.queue@;
        self.queue.push(copy);
        assert(self.queue@.drop_last() =~= before);
        assert(self.pending() =~= old(self).pending() + piece@);
        Ok(piece.len())
    }

    /// Closes the pipe. What was written can still be read.
    pub fn close_with_error(&mut self, error: Option<StreamError>)
        ensures
            final(self).closed,
            !final(self).sender_open,
            final(self).read_error == error,
            final(self).queue == old(self).queue,
            final(self).buffer == old(self).buffer,
    {
        self.read_error = error;
        self.closed = true;
        self.sender_open = false;
    }
}

/// A pipe that is closed gives out all that was written before the end shows: a
/// read of what is left takes from it, in order.
pub proof fn law_drained_before_end(
    before: PipeInner,
    closed: PipeInner,
    after: PipeInner,
    room: usize,
    read: PipeRead,
)
    requires
        before.has_data(),
        closed.queue == before.queue,
        closed.buffer == before.buffer,
        after.gave(closed, room, read),
    ensures
        read matches PipeRead::Bytes(bytes) && bytes@ + after.pending() == before.pending(),
{
}

/// What is written into a pipe is read from it: the first read after a write
/// into an empty pipe gives the beginning of what was written, as much as there
/// is room for, and leaves the rest.
pub proof fn law_written_is_read(
    before: PipeInner,
    written: PipeInner,
    after: PipeInner,
    piece: Seq<u8>,
    done: Result<usize, StreamError>,
    room: usize,
    read: PipeRead,
)
    requires
        !before.closed,
        before.sender_open,
        before.buffer@.len() == 0,
        before.queue@.len() == 0,
        written.wrote(before, piece, done),
        after.gave(written, room, read),
    ensures
        done == Ok::<usize, StreamError>(piece.len() as usize),
        read matches PipeRead::Bytes(bytes) && bytes@.len() == (if room < piece.len() {
            room as nat
        } else {
            piece.len()
        }) && bytes@ + after.pending() == piece,
{
    assert(written.queue@.len() == 1);
    assert(written.queue@[0]@ == piece);
    assert(flat(before.queue@) =~= Seq::empty());
    assert(before.pending() =~= Seq::empty());
    assert(written.pending() =~= piece);
}

/// A pipe that is closed takes nothing more, and one that is empty keeps its
/// reader waiting while it can still be written to.
pub proof fn law_closed_or_empty(
    before: PipeInner,
    after: PipeInner,
    piece: Seq<u8>,
    done: Result<usize, StreamError>,
    room: usize,
    read: PipeRead,
)
    ensures
        before.closed && after.wrote(before, piece, done) ==> done is Err && after.queue
            == before.queue,
        before.sender_open && before.buffer@.len() == 0 && before.queue@.len() == 0 && after.gave(
            before,
            room,
            read,
        ) ==> read is Wait,
        !before.sender_open && before.buffer@.len() == 0 && before.queue@.len() == 0
            && before.read_error is None && after.gave(before, room, read) ==> (
        read matches PipeRead::Bytes(bytes) && bytes@.len() == 0),
{
}

} // verus!

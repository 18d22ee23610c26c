//! Sessions and the streams within them.
use crate::anytls::pipe::{PipeInner, PipeRead};
use crate::text::join;
use crate::types::{StreamError, StreamErrorKind};
use vstd::prelude::*;

verus! {

/// The numbers of the streams of a session, and whether it runs.
pub struct Session {
    pub is_client: bool,
    pub stream_id: u32,
    pub closed: bool,
    pub started: bool,
    pub streams: Vec<u32>,
    pub synack_timeouts: Vec<u32>,
}

/// What is to be closed with a session.
pub struct Closing {
    pub streams: Vec<u32>,
    pub timeouts: Vec<u32>,
}

/// Whether a number is listed, and where.
fn position(list: &Vec<u32>, value: u32) -> (at: Option<usize>)
    ensures
        match at {
            Some(at) => at < list@.len() && list@[at as int] == value,
            None => !list@.contains(value),
        },
{
    for i in 0..list.len()
        invariant
            forall|j: int| 0 <= j < i ==> list@[j] != value,
    {
        if list[i] == value {
            return Some(i);
        }
    }
    None
}

/// Lists a number, unless it is listed.
fn list_in(list: &mut Vec<u32>, value: u32) -> (new: bool)
    requires
        old(list)@.no_duplicates(),
    ensures
        final(list)@.no_duplicates(),
        new == !old(list)@.contains(value),
        final(list)@.to_set() == old(list)@.to_set().insert(value),
{
    match position(list, value) {
        Some(at) => {
            assert(list@.to_set() =~= list@.to_set().insert(value));
            false
        },
        None => {
            let ghost before = list@;
            list.push(value);
            proof {
                before.lemma_push_to_set_commute(value);
            }
            true
        },
    }
}

/// Takes a number off a list.
fn drop_from(list: &mut Vec<u32>, value: u32) -> (was: bool)
    requires
        old(list)@.no_duplicates(),
    ensures
        final(list)@.no_duplicates(),
        was == old(list)@.contains(value),
        final(list)@.to_set() == old(list)@.to_set().remove(value),
{
    match position(list, value) {
        Some(at) => {
            let ghost before = list@;
            list.remove(at);
            proof {
                let after = list@;
                assert(after =~= before.remove(at as int));
                assert forall|other: u32| after.to_set().contains(other)
                    <==> before.to_set().remove(value).contains(other) by {
                    if after.contains(other) {
                        let j = after.index_of(other);
                        if j < at {
                            assert(before[j] == other);
                        } else {
                            assert(before[j + 1] == other);
                        }
                    }
                    if before.contains(other) && other != value {
                        let j = before.index_of(other);
                        if j < at {
                            assert(after[j] == other);
                        } else {
                            assert(after[j - 1] == other);
                        }
                    }
                }
                assert(after.to_set() =~= before.to_set().remove(value));
            }
            true
        },
        None => {
            assert(list@.to_set() =~= list@.to_set().remove(value));
            false
        },
    }
}

/// The number of a stream that is opened after the one with the last number, and
/// the streams that are open after it.
pub open spec fn with_next(open: Set<u32>, last: u32) -> (u32, Set<u32>) {
    ((last + 1) as u32, open.insert((last + 1) as u32))
}

/// Whether a stream that the peer opened is new, and the streams that are open
/// after it.
pub open spec fn with_incoming(open: Set<u32>, sid: u32) -> (bool, Set<u32>) {
    (!open.contains(sid), open.insert(sid))
}

/// Whether no stream is open once one was closed, and those that are.
pub open spec fn without_stream(open: Set<u32>, sid: u32) -> (bool, Set<u32>) {
    (open.remove(sid) == Set::<u32>::empty(), open.remove(sid))
}

impl Session {
    /// No stream is listed twice.
    pub open spec fn wf(self) -> bool {
        self.streams@.no_duplicates() && self.synack_timeouts@.no_duplicates()
    }

    /// The streams that are open.
    pub open spec fn open(self) -> Set<u32> {
        self.streams@.to_set()
    }

    /// The streams whose opening is watched.
    pub open spec fn watched(self) -> Set<u32> {
        self.synack_timeouts@.to_set()
    }

    /// Whether nothing but the streams differs.
    pub open spec fn same_but_streams(self, other: Session) -> bool {
        &&& self.is_client == other.is_client
        &&& self.closed == other.closed
        &&& self.started == other.started
        &&& self.synack_timeouts == other.synack_timeouts
    }

    /// Whether nothing but the streams and what is watched differs.
    pub open spec fn same_but_timeouts(self, other: Session) -> bool {
        &&& self.is_client == other.is_client
        &&& self.stream_id == other.stream_id
        &&& self.closed == other.closed
        &&& self.started == other.started
    }

    pub fn new(is_client: bool) -> (session: Session)
        ensures
            session.wf(),
            session.is_client == is_client,
            session.stream_id == 0,
            !session.closed,
            !session.started,
            session.open() == Set::<u32>::empty(),
            session.watched() == Set::<u32>::empty(),
    {
        let session = Session {
            is_client,
            stream_id: 0,
            closed: false,
            started: false,
            streams: Vec::new(),
            synack_timeouts: Vec::new(),
        };
        assert(session.open() =~= Set::empty());
        assert(session.watched() =~= Set::empty());
        session
    }

    /// Whether the protocol is still to be started.
    pub fn needs_start(&self) -> (yes: bool)
        ensures
            yes == !self.started,
    {
        !self.started
    }

    /// The protocol was started.
    pub fn mark_started(&mut self)
        ensures
            *final(self) == (Session { started: true, ..*old(self) }),
    {
        self.started = true;
    }

    /// A read gave `count` bytes: whether the session goes on.
    pub fn received(&self, count: usize) -> (go_on: Result<(), StreamError>)
        ensures
            match go_on {
                Ok(()) => !self.closed && count > 0,
                Err(error) => if self.closed {
                    error.says(StreamErrorKind::BrokenPipe, "Session closed"@)
                } else {
                    count == 0 && error.says(
                        StreamErrorKind::UnexpectedEof,
                        "Connection closed"@,
                    )
                },
            },
    {
        if self.closed {
            return Err(StreamError::new(StreamErrorKind::BrokenPipe, "Session closed"));
        }
        if count == 0 {
            return Err(StreamError::new(StreamErrorKind::UnexpectedEof, "Connection closed"));
        }
        Ok(())
    }

    /// Opens a stream under the next number.
    pub fn open_stream(&mut self) -> (id: u32)
        requires
            old(self).wf(),
            old(self).stream_id < u32::MAX,
        ensures
            final(self).wf(),
            final(self).same_but_streams(*old(self)),
            id == old(self).stream_id + 1,
            final(self).stream_id == id,
            final(self).open() == old(self).open().insert(id),
            (id, final(self).open()) == with_next(old(self).open(), old(self).stream_id),
    {
        let id: u32 = self.stream_id + 1;
        self.stream_id = id;
        list_in(&mut self.streams, id);
        id
    }

    /// The peer opened a stream: whether it is a new one.
    pub fn ensure_incoming_stream(&mut self, sid: u32) -> (new: bool)
        requires
            old(self).wf(),
        ensures
            final(self).wf(),
            final(self).same_but_streams(*old(self)),
            final(self).stream_id == old(self).stream_id,
            new == !old(self).open().contains(sid),
            final(self).open() == old(self).open().insert(sid),
            (new, final(self).open()) == with_incoming(old(self).open(), sid),
    {
        list_in(&mut self.streams, sid)
    }

    /// Whether a stream is open.
    pub fn has_stream(&self, sid: u32) -> (yes: bool)
        ensures
            yes == self.open().contains(sid),
    {
        position(&self.streams, sid).is_some()
    }

    /// A stream was closed: whether the session is idle now.
    pub fn remove_stream(&mut self, sid: u32) -> (idle: bool)
        requires
            old(self).wf(),
        ensures
            final(self).wf(),
            final(self).same_but_streams(*old(self)),
            final(self).stream_id == old(self).stream_id,
            final(self).open() == old(self).open().remove(sid),
            idle == (final(self).open() == Set::<u32>::empty()),
            (idle, final(self).open()) == without_stream(old(self).open(), sid),
    {
        drop_from(&mut self.streams, sid);
        let idle = self.streams.len() == 0;
        proof {
            if idle {
                assert(self.open() =~= Set::empty());
            } else {
                assert(self.open().contains(self.streams@[0]));
            }
        }
        idle
    }

    /// The opening of a stream is watched.
    pub fn arm_synack_timeout(&mut self, sid: u32)
        requires
            old(self).wf(),
        ensures
            final(self).wf(),
            final(self).streams == old(self).streams,
            final(self).same_but_timeouts(*old(self)),
            final(self).watched() == old(self).watched().insert(sid),
    {
        list_in(&mut self.synack_timeouts, sid);
    }

    /// The opening of a stream is watched no more: whether it was.
    pub fn cancel_synack_timeout(&mut self, sid: u32) -> (was: bool)
        requires
            old(self).wf(),
        ensures
            final(self).wf(),
            final(self).streams == old(self).streams,
            final(self).same_but_timeouts(*old(self)),
            was == old(self).watched().contains(sid),
            final(self).watched() == old(self).watched().remove(sid),
    {
        drop_from(&mut self.synack_timeouts, sid)
    }

    /// Closes the session: what is to be closed with it, the first time.
    pub fn close(&mut self) -> (closing: Option<Closing>)
        requires
            old(self).wf(),
        ensures
            final(self).wf(),
            final(self).closed,
            final(self).streams == old(self).streams,
            final(self).same_but_timeouts((Session { closed: true, ..*old(self) })),
            if old(self).closed {
                closing is None && *final(self) == *old(self)
            } else {
                &&& closing matches Some(list) && list.streams@.to_set() == old(self).open()
                    && list.timeouts@.to_set() == old(self).watched()
                &&& final(self).watched() == Set::<u32>::empty()
            },
    {
        if self.closed {
            return None;
        }
        self.closed = true;
        let mut streams: Vec<u32> = Vec::new();
        for i in 0..self.streams.len()
            invariant
                streams@ =~= self.streams@.take(i as int),
        {
            streams.push(self.streams[i]);
        }
        assert(streams@ =~= self.streams@);
        let mut timeouts: Vec<u32> = Vec::new();
        for i in 0..self.synack_timeouts.len()
            invariant
                timeouts@ =~= self.synack_timeouts@.take(i as int),
        {
            timeouts.push(self.synack_timeouts[i]);
        }
        assert(timeouts@ =~= self.synack_timeouts@);
        self.synack_timeouts = Vec::new();
        assert(self.watched() =~= Set::empty());
        Some(Closing { streams, timeouts })
    }

    /// Whether the session is closed, by itself or for want of its writer.
    pub fn is_closed(&self, writer_gone: bool) -> (closed: bool)
        ensures
            closed == (self.closed || writer_gone),
    {
        self.closed || writer_gone
    }

    /// How many streams are open.
    pub fn stream_count(&self) -> (count: usize)
        requires
            self.wf(),
        ensures
            count == self.open().len(),
    {
        proof {
            self.streams@.unique_seq_to_set();
        }
        self.streams.len()
    }
}

/// The writer is gone: before it took a frame, or before it wrote it.
pub fn write_failed(taken: bool) -> (error: StreamError)
    ensures
        error.says(
            StreamErrorKind::BrokenPipe,
            if taken {
                "Writer dropped"@
            } else {
                "Session closed"@
            },
        ),
{
    if taken {
        StreamError::new(StreamErrorKind::BrokenPipe, "Writer dropped")
    } else {
        StreamError::new(StreamErrorKind::BrokenPipe, "Session closed")
    }
}

/// The error that a stream is closed with when the peer says why.
pub fn remote_error(message: &str) -> (error: StreamError)
    ensures
        error.says(StreamErrorKind::Other, "remote: "@ + message@),
{
    StreamError { kind: StreamErrorKind::Other, message: join("remote: ", message) }
}

/// One stream of a session.
pub struct Stream {
    pub id: u32,
    pub closed: bool,
    pub pipe: PipeInner,
}

impl Stream {
    pub fn new(id: u32) -> (stream: Stream)
        ensures
            stream.id == id,
            !stream.closed,
            !stream.pipe.closed,
            stream.pipe.sender_open,
            stream.pipe.read_error is None,
            !stream.pipe.has_data(),
    {
        Stream { id, closed: false, pipe: PipeInner::new() }
    }

    /// The number of the stream.
    pub fn id(&self) -> (id: u32)
        ensures
            id == self.id,
    {
        self.id
    }

    /// Bytes came for the stream.
    pub fn push_data(&mut self, bytes: &[u8]) -> (written: Result<usize, StreamError>)
        ensures
            final(self).id == old(self).id,
            final(self).closed == old(self).closed,
            final(self).pipe.wrote(old(self).pipe, bytes@, written),
    {
        self.pipe.write(bytes)
    }

    /// Reads up to `room` bytes.
    pub fn read(&mut self, room: usize) -> (read: PipeRead)
        ensures
            final(self).id == old(self).id,
            final(self).closed == old(self).closed,
            final(self).pipe.gave(old(self).pipe, room, read),
    {
        self.pipe.read(room)
    }

    /// Closes the stream on this side: whether it was open.
    pub fn close_local_with_error(&mut self, error: Option<StreamError>) -> (first: bool)
        ensures
            first == !old(self).closed,
            final(self).closed,
            final(self).id == old(self).id,
            if old(self).closed {
                final(self).pipe == old(self).pipe
            } else {
                &&& final(self).pipe.closed
                &&& !final(self).pipe.sender_open
                &&& final(self).pipe.read_error == error
                &&& final(self).pipe.pending() == old(self).pipe.pending()
            },
    {
        if self.closed {
            return false;
        }
        self.closed = true;
        self.pipe.close_with_error(error);
        true
    }

    /// Closes the stream and, where it was open, gives the number that the peer
    /// is to be told.
    pub fn close_with_error(&mut self, error: Option<StreamError>) -> (tell: Option<u32>)
        ensures
            tell == (if old(self).closed {
                None
            } else {
                Some(old(self).id)
            }),
            final(self).closed,
            final(self).id == old(self).id,
            if old(self).closed {
                final(self).pipe == old(self).pipe
            } else {
                &&& final(self).pipe.closed
                &&& !final(self).pipe.sender_open
                &&& final(self).pipe.read_error == error
                &&& final(self).pipe.pending() == old(self).pipe.pending()
            },
    {
        let id: u32 = self.id;
        if self.close_local_with_error(error) {
            Some(id)
        } else {
            None
        }
    }
}

/// Streams that are opened one after the other have numbers that count up by one.
/// A stream that the peer opens is new the first time and not the second. A
/// stream that is closed is open no more, the others are, and the session is idle
/// once the last was closed.
pub proof fn law_streams(open: Set<u32>, last: u32, sid: u32, other: u32)
    requires
        last < u32::MAX - 1,
        other != sid,
    ensures
        ({
            let (one, then) = with_next(open, last);
            let (two, _) = with_next(then, one);
            &&& one == last + 1 && two == last + 2
            &&& then.contains(one)
        }),
        ({
            let (_, then) = with_incoming(open, sid);
            &&& then.contains(sid)
            &&& then.contains(other) == open.contains(other)
            &&& !with_incoming(then, sid).0
            &&& with_incoming(open, sid).0 == !open.contains(sid)
        }),
        ({
            let (idle, then) = without_stream(open, sid);
            &&& !then.contains(sid)
            &&& then.contains(other) == open.contains(other)
            &&& open.contains(other) ==> !idle
        }),
        without_stream(Set::<u32>::empty().insert(sid), sid).0,
{
    assert(Set::<u32>::empty().insert(sid).remove(sid) =~= Set::<u32>::empty());
    if open.contains(other) {
        assert(open.remove(sid).contains(other));
    }
}

} // verus!

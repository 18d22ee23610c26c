//! Datagrams over a stream of records. The cipher of the records is the
//! caller's: the session says when to use it and takes what it gave.
use crate::octets::{be16, copy_range, push_all, read_be16};
use crate::outbound::frame_writer::WriteState;
use crate::text::{decimal, decimal_text, join};
use crate::types::{Endpoint, IoError, IoErrorKind};
use vstd::prelude::*;

verus! {

/// Which part of the peer's bytes is being read.
#[derive(Clone, Copy, Debug, PartialEq, Eq, Structural)]
pub enum ReadStage {
    /// The sealed length of the answer header.
    ResponseLength,
    /// The sealed answer header of the given length.
    ResponseHeader(usize),
    /// The length of a record.
    RecordLength,
    /// A record of the given length.
    Record(usize),
}

impl ReadStage {
    /// How many bytes the part takes.
    pub open spec fn need(self) -> int {
        match self {
            ReadStage::ResponseLength => 18,
            ReadStage::ResponseHeader(len) => len + 16,
            ReadStage::RecordLength => 2,
            ReadStage::Record(len) => len as int,
        }
    }
}

/// What to do next to receive a datagram.
pub enum RecvStep {
    /// Read at most so many bytes from the stream.
    Read(usize),
    /// Open the sealed length and report with `response_length`.
    OpenLength(Vec<u8>),
    /// Check the sealed header and report with `header_checked`.
    CheckHeader(Vec<u8>),
    /// Open the record and report with `record_opened`.
    OpenRecord(Vec<u8>),
    /// Receiving failed.
    Fail(IoError),
}

/// The same over plain values.
pub enum RecvModel {
    Read(int),
    OpenLength(Seq<u8>),
    CheckHeader(Seq<u8>),
    OpenRecord(Seq<u8>),
    Ended,
}

impl RecvStep {
    pub open spec fn view(&self) -> RecvModel {
        match *self {
            RecvStep::Read(count) => RecvModel::Read(count as int),
            RecvStep::OpenLength(bytes) => RecvModel::OpenLength(bytes@),
            RecvStep::CheckHeader(bytes) => RecvModel::CheckHeader(bytes@),
            RecvStep::OpenRecord(bytes) => RecvModel::OpenRecord(bytes@),
            RecvStep::Fail(_) => RecvModel::Ended,
        }
    }
}

/// What to do with what was read of a part, and the part and what is held of it
/// after that.
pub open spec fn advanced(stage: ReadStage, pending: Seq<u8>) -> (RecvModel, ReadStage, Seq<u8>) {
    if pending.len() < stage.need() {
        (RecvModel::Read(stage.need() - pending.len()), stage, pending)
    } else {
        match stage {
            ReadStage::ResponseLength => (RecvModel::OpenLength(pending), stage, pending),
            ReadStage::ResponseHeader(_) => (RecvModel::CheckHeader(pending), stage, pending),
            ReadStage::RecordLength => {
                let length = be16(pending[0], pending[1]);
                if length == 0 {
                    (RecvModel::Ended, stage, pending)
                } else {
                    (
                        RecvModel::Read(length as int),
                        ReadStage::Record(length as usize),
                        Seq::empty(),
                    )
                }
            },
            ReadStage::Record(_) => (RecvModel::OpenRecord(pending), stage, pending),
        }
    }
}

/// Datagrams of one target over one stream.
pub struct VmessDatagram {
    pub target: Endpoint,
    pub stage: ReadStage,
    /// What was read of the part under way.
    pub pending: Vec<u8>,
    pub write: WriteState,
}

impl VmessDatagram {
    /// No more than the part under way is held.
    pub open spec fn wf(self) -> bool {
        &&& self.pending@.len() <= self.stage.need()
        &&& self.stage.need() <= usize::MAX
        &&& self.write.wf()
    }

    pub fn new(target: Endpoint) -> (datagram: VmessDatagram)
        ensures
            datagram.wf(),
            datagram.target == target,
            datagram.stage is ResponseLength,
            datagram.pending@ == Seq::<u8>::empty(),
            datagram.write is Idle,
    {
        VmessDatagram {
            target,
            stage: ReadStage::ResponseLength,
            pending: Vec::new(),
            write: WriteState::Idle,
        }
    }

    /// Says what the part under way needs: bytes of the stream, or the cipher.
    /// A record of no bytes ends the stream.
    pub fn poll_recv_from(&mut self) -> (step: RecvStep)
        requires
            old(self).wf(),
        ensures
            final(self).wf(),
            final(self).target == old(self).target,
            final(self).write == old(self).write,
            ({
                let pending = old(self).pending@;
                let stage = old(self).stage;
                let length = be16(pending[0], pending[1]);
                if pending.len() < stage.need() {
                    &&& step matches RecvStep::Read(count)
                    &&& count == stage.need() - pending.len()
                    &&& final(self).stage == stage
                    &&& final(self).pending@ == pending
                } else if stage is RecordLength && length != 0 {
                    &&& step == RecvStep::Read(length as usize)
                    &&& final(self).stage == ReadStage::Record(length as usize)
                    &&& final(self).pending@ == Seq::<u8>::empty()
                } else {
                    &&& final(self).stage == stage
                    &&& final(self).pending@ == pending
                    &&& match stage {
                        ReadStage::ResponseLength => step matches RecvStep::OpenLength(bytes)
                            && bytes@ == pending,
                        ReadStage::ResponseHeader(_) => step matches RecvStep::CheckHeader(bytes)
                            && bytes@ == pending,
                        ReadStage::RecordLength => step matches RecvStep::Fail(error) && error.says(
                            IoErrorKind::Closed,
                            "VMess UDP stream ended"@,
                        ),
                        ReadStage::Record(_) => step matches RecvStep::OpenRecord(bytes) && bytes@
                            == pending,
                    }
                }
            }),
            (step@, final(self).stage, final(self).pending@) == advanced(
                old(self).stage,
                old(self).pending@,
            ),
    {
        let need: usize = match self.stage {
            ReadStage::ResponseLength => 18,
            ReadStage::ResponseHeader(len) => len + 16,
            ReadStage::RecordLength => 2,
            ReadStage::Record(len) => len,
        };
        if self.pending.len() < need {
            return RecvStep::Read(need - self.pending.len());
        }
        match self.stage {
            ReadStage::RecordLength => {
                let length: usize = read_be16(self.pending.as_slice(), 0) as usize;
                if length == 0 {
                    return RecvStep::Fail(
                        IoError::new(IoErrorKind::Closed, "VMess UDP stream ended"),
                    );
                }
                self.stage = ReadStage::Record(length);
                self.pending = Vec::new();
                RecvStep::Read(length)
            },
            _ => {
                let bytes = copy_range(self.pending.as_slice(), 0, self.pending.len());
                assert(bytes@ =~= self.pending@);
                match self.stage {
                    ReadStage::ResponseLength => RecvStep::OpenLength(bytes),
                    ReadStage::ResponseHeader(_) => RecvStep::CheckHeader(bytes),
                    _ => RecvStep::OpenRecord(bytes),
                }
            },
        }
    }

    /// The stream gave some bytes of the part under way; none means that it is
    /// closed.
    pub fn received(&mut self, data: &[u8]) -> (done: Result<(), IoError>)
        requires
            old(self).wf(),
            old(self).pending@.len() + data@.len() <= old(self).stage.need(),
        ensures
            final(self).wf(),
            final(self).target == old(self).target,
            final(self).write == old(self).write,
            final(self).stage == old(self).stage,
            final(self).pending@ == old(self).pending@ + data@,
            done is Err <==> data@.len() == 0,
            done matches Err(error) ==> error.says(
                IoErrorKind::Closed,
                "read VMess UDP record"@,
            ),
    {
        push_all(&mut self.pending, data);
        if data.len() == 0 {
            return Err(IoError::new(IoErrorKind::Closed, "read VMess UDP record"));
        }
        Ok(())
    }

    /// What the cipher said of the sealed length: the header's length, or why
    /// it could not be opened.
    pub fn response_length(&mut self, opened: Result<usize, String>) -> (done: Result<(), IoError>)
        requires
            old(self).wf(),
            old(self).stage is ResponseLength,
            opened matches Ok(len) ==> len <= usize::MAX - 16,
        ensures
            final(self).wf(),
            final(self).target == old(self).target,
            final(self).write == old(self).write,
            match opened {
                Ok(len) => {
                    &&& done is Ok
                    &&& final(self).stage == ReadStage::ResponseHeader(len)
                    &&& final(self).pending@ == Seq::<u8>::empty()
                },
                Err(message) => {
                    &&& done matches Err(error)
                    &&& error.says(IoErrorKind::InvalidInput, message@)
                    &&& final(self).stage == old(self).stage
                    &&& final(self).pending == old(self).pending
                },
            },
    {
        match opened {
            Ok(len) => {
                self.stage = ReadStage::ResponseHeader(len);
                self.pending = Vec::new();
                Ok(())
            },
            Err(message) => Err(IoError { kind: IoErrorKind::InvalidInput, message }),
        }
    }

    /// What the cipher said of the answer header.
    pub fn header_checked(&mut self, checked: Result<(), String>) -> (done: Result<(), IoError>)
        requires
            old(self).wf(),
            old(self).stage is ResponseHeader,
        ensures
            final(self).wf(),
            final(self).target == old(self).target,
            final(self).write == old(self).write,
            match checked {
                Ok(()) => {
                    &&& done is Ok
                    &&& final(self).stage is RecordLength
                    &&& final(self).pending@ == Seq::<u8>::empty()
                },
                Err(message) => {
                    &&& done matches Err(error)
                    &&& error.says(IoErrorKind::InvalidInput, message@)
                    &&& final(self).stage == old(self).stage
                    &&& final(self).pending == old(self).pending
                },
            },
    {
        match checked {
            Ok(()) => {
                self.stage = ReadStage::RecordLength;
                self.pending = Vec::new();
                Ok(())
            },
            Err(message) => Err(IoError { kind: IoErrorKind::InvalidInput, message }),
        }
    }

    /// What the cipher made of a record. A payload of more than `capacity`
    /// bytes is dropped with an error.
    pub fn record_opened(&mut self, opened: Result<Vec<u8>, String>, capacity: usize) -> (packet:
        Result<(Vec<u8>, Endpoint), IoError>)
        requires
            old(self).wf(),
            old(self).stage is Record,
        ensures
            final(self).wf(),
            final(self).target == old(self).target,
            final(self).write == old(self).write,
            match opened {
                Ok(payload) => {
                    &&& final(self).stage is RecordLength
                    &&& final(self).pending@ == Seq::<u8>::empty()
                    &&& payload@.len() <= capacity ==> {
                        &&& packet matches Ok((out, source))
                        &&& out == payload
                        &&& source@ == old(self).target@
                    }
                    &&& payload@.len() > capacity ==> {
                        &&& packet matches Err(error)
                        &&& error.says(
                            IoErrorKind::InvalidInput,
                            "VMess UDP payload of "@ + decimal(payload@.len())
                                + " bytes exceeds receive buffer"@,
                        )
                    }
                },
                Err(message) => {
                    &&& packet matches Err(error)
                    &&& error.says(IoErrorKind::InvalidInput, message@)
                    &&& final(self).stage == old(self).stage
                    &&& final(self).pending == old(self).pending
                },
            },
    {
        match opened {
            Ok(payload) => {
                self.stage = ReadStage::RecordLength;
                self.pending = Vec::new();
                if payload.len() > capacity {
                    let number = decimal_text(payload.len() as u64);
                    let head = join("VMess UDP payload of ", number.as_str());
                    return Err(
                        IoError {
                            kind: IoErrorKind::InvalidInput,
                            message: join(head.as_str(), " bytes exceeds receive buffer"),
                        },
                    );
                }
                Ok((payload, self.target.duplicate()))
            },
            Err(message) => Err(IoError { kind: IoErrorKind::InvalidInput, message }),
        }
    }

    /// Whether a datagram to `target` is to be sealed now: not while another is
    /// under way. The target is fixed for the session.
    pub fn poll_send_to(&self, target: &Endpoint) -> (seal: Result<bool, IoError>)
        ensures
            if !(self.write is Idle) {
                seal == Ok::<bool, IoError>(false)
            } else if target@ == self.target@ {
                seal == Ok::<bool, IoError>(true)
            } else {
                &&& seal matches Err(error)
                &&& error.says(
                    IoErrorKind::InvalidInput,
                    "VMess native UDP session cannot change target"@,
                )
            },
    {
        match self.write {
            WriteState::Idle => {},
            _ => return Ok(false),
        }
        if !target.same(&self.target) {
            return Err(
                IoError::new(
                    IoErrorKind::InvalidInput,
                    "VMess native UDP session cannot change target",
                ),
            );
        }
        Ok(true)
    }

    /// What the cipher made of a payload of `payload_len` bytes: the record to
    /// write, or why there is none.
    pub fn sealed(&mut self, sealed: Result<Vec<u8>, String>, payload_len: usize) -> (done: Result<
        (),
        IoError,
    >)
        requires
            old(self).wf(),
            old(self).write is Idle,
            sealed matches Ok(record) ==> record@.len() > 0,
        ensures
            final(self).wf(),
            final(self).target == old(self).target,
            final(self).stage == old(self).stage,
            final(self).pending == old(self).pending,
            match sealed {
                Ok(record) => {
                    &&& done is Ok
                    &&& final(self).write is Frame
                    &&& final(self).write.unwritten() == record@
                    &&& final(self).write.payload() == Some(payload_len)
                },
                Err(message) => {
                    &&& done matches Err(error)
                    &&& error.says(IoErrorKind::InvalidInput, message@)
                    &&& final(self).write is Idle
                },
            },
    {
        match sealed {
            Ok(record) => {
                self.write = WriteState::begin(record, payload_len);
                Ok(())
            },
            Err(message) => Err(IoError { kind: IoErrorKind::InvalidInput, message }),
        }
    }

    /// The stream took `count` bytes of the record under way; none means that it
    /// is closed.
    pub fn wrote(&mut self, count: usize) -> (done: Result<(), IoError>)
        requires
            old(self).wf(),
            old(self).write is Frame,
            count <= old(self).write.unwritten().len(),
        ensures
            final(self).wf(),
            final(self).target == old(self).target,
            final(self).stage == old(self).stage,
            final(self).pending == old(self).pending,
            final(self).write.payload() == old(self).write.payload(),
            final(self).write.unwritten() == old(self).write.unwritten().skip(count as int),
            (final(self).write is Flush) == (count == old(self).write.unwritten().len()),
            (final(self).write is Frame) == (count < old(self).write.unwritten().len()),
            done is Err <==> count == 0,
            done matches Err(error) ==> error.says(IoErrorKind::Closed, "write VMess UDP record"@),
    {
        self.write.wrote(count, "write VMess UDP record")
    }
}

/// The answer of a server begins with eighteen bytes, the sealed length of its
/// header, and the header, which its seal makes sixteen bytes longer.
pub proof fn law_answer_read(length: Seq<u8>, size: usize, header: Seq<u8>)
    requires
        length.len() == 18,
        size <= usize::MAX - 16,
        header.len() == size + 16,
    ensures
        advanced(ReadStage::ResponseLength, Seq::empty()).0 == RecvModel::Read(18),
        advanced(ReadStage::ResponseLength, length).0 == RecvModel::OpenLength(length),
        advanced(ReadStage::ResponseHeader(size), Seq::empty()).0 == RecvModel::Read(size + 16),
        advanced(ReadStage::ResponseHeader(size), header).0 == RecvModel::CheckHeader(header),
{
}

/// A record stands behind its length in two bytes and is opened once it is there
/// whole; as much as is missing is read. A length of zero ends the stream.
pub proof fn law_record_read(record: Seq<u8>, have: int)
    requires
        0 < record.len() <= 0xffff,
        0 <= have < record.len(),
    ensures
        ({
            let length = seq![(record.len() / 256) as u8, (record.len() % 256) as u8];
            let (step, stage, held) = advanced(ReadStage::RecordLength, length);
            &&& step == RecvModel::Read(record.len() as int)
            &&& held.len() == 0
            &&& advanced(stage, record).0 == RecvModel::OpenRecord(record)
            &&& advanced(stage, record.take(have)).0 == RecvModel::Read(record.len() - have)
        }),
        advanced(ReadStage::RecordLength, seq![0u8, 0u8]).0 is Ended,
        advanced(ReadStage::RecordLength, seq![record[0]]).0 == RecvModel::Read(1),
{
}

} // verus!

//! Requests and replies as they travel.
use crate::dns::model::{
    name_fault, normalized, DnsAnswer, DnsError, DnsName, DnsQuery, DnsRecordType, DnsResponse,
    ResponseModel,
};
use crate::octets::byte_views;
use crate::text::join;
use crate::types::{Host, HostModel, IpAddress, IpModel};
use hickory_proto::op::{Message, MessageType, OpCode, Query, ResponseCode};
use hickory_proto::rr::rdata::{A, AAAA};
use hickory_proto::rr::{RData, Record};
use hickory_proto::serialize::binary::{BinDecodable, BinEncodable};
use vstd::prelude::*;

verus! {

/// The reply that the request makes no sense.
pub const FORM_ERROR: u8 = 1;

/// The reply that the server failed.
pub const SERVER_FAILURE: u8 = 2;

/// A question of a request: its name as text, the number of its kind, and its
/// bytes.
#[derive(Clone, Debug)]
pub struct Question {
    pub name: String,
    pub kind: u16,
    pub wire: Vec<u8>,
}

/// What a [`Question`] holds.
#[verifier::ext_equal]
pub struct QuestionModel {
    pub name: Seq<char>,
    pub kind: u16,
    pub wire: Seq<u8>,
}

impl View for Question {
    type V = QuestionModel;

    open spec fn view(&self) -> QuestionModel {
        QuestionModel { name: self.name@, kind: self.kind, wire: self.wire@ }
    }
}

/// What is kept of a message.
#[derive(Clone, Debug)]
pub struct Request {
    pub id: u16,
    pub is_response: bool,
    pub op_code: u8,
    pub recursion_desired: bool,
    pub questions: Vec<Question>,
}

/// What a [`Request`] holds.
#[verifier::ext_equal]
pub struct RequestModel {
    pub id: u16,
    pub is_response: bool,
    pub op_code: u8,
    pub recursion_desired: bool,
    pub questions: Seq<QuestionModel>,
}

impl View for Request {
    type V = RequestModel;

    open spec fn view(&self) -> RequestModel {
        RequestModel {
            id: self.id,
            is_response: self.is_response,
            op_code: self.op_code,
            recursion_desired: self.recursion_desired,
            questions: self.questions@.map_values(|question: Question| question@),
        }
    }
}

/// A reply.
#[derive(Clone, Debug)]
pub struct Reply {
    pub id: u16,
    pub op_code: u8,
    pub recursion_desired: bool,
    pub recursion_available: bool,
    pub response_code: u8,
    pub questions: Vec<Vec<u8>>,
    pub answers: Vec<Vec<u8>>,
}

/// What a [`Reply`] holds.
#[verifier::ext_equal]
pub struct ReplyModel {
    pub id: u16,
    pub op_code: u8,
    pub recursion_desired: bool,
    pub recursion_available: bool,
    pub response_code: u8,
    pub questions: Seq<Seq<u8>>,
    pub answers: Seq<Seq<u8>>,
}

impl View for Reply {
    type V = ReplyModel;

    open spec fn view(&self) -> ReplyModel {
        ReplyModel {
            id: self.id,
            op_code: self.op_code,
            recursion_desired: self.recursion_desired,
            recursion_available: self.recursion_available,
            response_code: self.response_code,
            questions: byte_views(self.questions@),
            answers: byte_views(self.answers@),
        }
    }
}

/// What a packet says, or the text of the error where it is no message.
pub uninterp spec fn message_parts(packet: Seq<u8>) -> Result<RequestModel, Seq<char>>;

/// `hickory_proto::op::Message::from_vec`: identifier, kind, operation code,
/// the recursion flag and the questions, or the text of the error, are a
/// function of the packet.
#[verifier::external_body]
pub(crate) fn decode_message(packet: &[u8]) -> (request: Result<Request, String>)
    ensures
        request is Ok <==> message_parts(packet@) is Ok,
        request matches Ok(found) ==> message_parts(packet@)->Ok_0 == found@,
        request matches Err(error) ==> message_parts(packet@)->Err_0 == error@,
{
    let message = Message::from_vec(packet).map_err(|error| error.to_string())?;
    let mut questions = Vec::new();
    for query in message.queries() {
        let wire = query.to_bytes().map_err(|error| error.to_string())?;
        let (name, kind) = (query.name().to_utf8(), query.query_type().into());
        questions.push(Question { name, kind, wire });
    }
    Ok(Request {
        id: message.id(),
        is_response: message.message_type() == MessageType::Response,
        op_code: message.op_code().into(),
        recursion_desired: message.recursion_desired(),
        questions,
    })
}

/// What an answer holds.
pub open spec fn answer_view(answer: (Option<IpAddress>, u32)) -> (Option<IpModel>, u32) {
    (
        match answer.0 {
            Some(ip) => Some(ip@),
            None => None,
        },
        answer.1,
    )
}

/// What some answers hold.
pub open spec fn answer_list(answers: Seq<(Option<IpAddress>, u32)>) -> Seq<
    (Option<IpModel>, u32),
> {
    answers.map_values(|answer: (Option<IpAddress>, u32)| answer_view(answer))
}

/// The answers in a message: the address of each, where it holds one, and its
/// time to live. `None` where the packet is no message.
pub uninterp spec fn message_answers(packet: Seq<u8>) -> Option<Seq<(Option<IpModel>, u32)>>;

/// `hickory_proto::op::Message::answers`, on a decoded packet: the answers are
/// a function of the packet.
#[verifier::external_body]
pub(crate) fn decode_answers(packet: &[u8]) -> (answers: Option<Vec<(Option<IpAddress>, u32)>>)
    ensures
        answers is Some <==> message_answers(packet@) is Some,
        answers matches Some(list) ==> message_answers(packet@) == Some(answer_list(list@)),
{
    let message = Message::from_vec(packet).ok()?;
    let address = |data: &RData| match data {
        RData::A(value) => Some(IpAddress::V4(value.octets())),
        RData::AAAA(value) => Some(IpAddress::V6(value.octets())),
        _ => None,
    };
    Some(message.answers().iter().map(|answer| (address(answer.data()), answer.ttl())).collect())
}

/// The bytes of a record that gives the name of a question an address.
pub uninterp spec fn address_record(
    question: Seq<u8>,
    ttl_seconds: u32,
    octets: Seq<u8>,
) -> Result<Seq<u8>, Seq<char>>;

/// `hickory_proto::rr::Record::from_rdata` with an A or AAAA record, by the
/// number of octets: the bytes, or the text of the error, are a function of the
/// question's bytes, the time to live and the octets.
#[verifier::external_body]
fn encode_address(question: &[u8], ttl_seconds: u32, address: &IpAddress) -> (record: Result<
    Vec<u8>,
    String,
>)
    ensures
        record is Ok <==> address_record(question@, ttl_seconds, address@.octets()) is Ok,
        record matches Ok(bytes) ==> address_record(
            question@,
            ttl_seconds,
            address@.octets(),
        )->Ok_0 == bytes@,
        record matches Err(error) ==> address_record(
            question@,
            ttl_seconds,
            address@.octets(),
        )->Err_0 == error@,
{
    let query = Query::from_bytes(question).map_err(|error| error.to_string())?;
    let data = match *address {
        IpAddress::V4(octets) => RData::A(A(octets.into())),
        IpAddress::V6(octets) => RData::AAAA(AAAA(octets.into())),
    };
    let record = Record::from_rdata(query.name().clone(), ttl_seconds, data);
    record.to_bytes().map_err(|error| error.to_string())
}

/// The bytes of a reply, or the text of the error.
pub uninterp spec fn reply_bytes(reply: ReplyModel) -> Result<Seq<u8>, Seq<char>>;

/// `hickory_proto::op::Message::to_vec` on a response that
/// `hickory_proto::op::Message::error_msg` made and that got the given flags,
/// questions and answers: the bytes, or the text of the error, are a function
/// of them.
#[verifier::external_body]
fn encode_reply(reply: &Reply) -> (bytes: Result<Vec<u8>, String>)
    ensures
        bytes is Ok <==> reply_bytes(reply@) is Ok,
        bytes matches Ok(found) ==> reply_bytes(reply@)->Ok_0 == found@,
        bytes matches Err(error) ==> reply_bytes(reply@)->Err_0 == error@,
{
    let op_code = OpCode::from_u8(reply.op_code);
    let response_code = ResponseCode::from(0, reply.response_code);
    let mut message = Message::error_msg(reply.id, op_code, response_code);
    message.set_recursion_desired(reply.recursion_desired);
    message.set_recursion_available(reply.recursion_available);
    for wire in &reply.questions {
        message.add_query(Query::from_bytes(wire).map_err(|error| error.to_string())?);
    }
    for wire in &reply.answers {
        message.add_answer(Record::from_bytes(wire).map_err(|error| error.to_string())?);
    }
    message.to_vec().map_err(|error| error.to_string())
}

/// The bytes of each question.
pub open spec fn question_bytes(questions: Seq<QuestionModel>) -> Seq<Seq<u8>> {
    questions.map_values(|question: QuestionModel| question.wire)
}

/// A reply to a request.
pub open spec fn reply_to(
    request: RequestModel,
    response_code: u8,
    answers: Seq<Seq<u8>>,
) -> ReplyModel {
    ReplyModel {
        id: request.id,
        op_code: request.op_code,
        recursion_desired: request.recursion_desired,
        recursion_available: true,
        response_code,
        questions: question_bytes(request.questions),
        answers,
    }
}

/// Whether a result is what comes of encoding a reply.
pub open spec fn is_encoded(reply: ReplyModel, bytes: Result<Vec<u8>, DnsError>) -> bool {
    match reply_bytes(reply) {
        Ok(encoded) => bytes matches Ok(found) && found@ == encoded,
        Err(text) => bytes matches Err(error) && error.message@ == "encode DNS response: "@ + text,
    }
}

fn encode(request: &Request, response_code: u8, answers: Vec<Vec<u8>>) -> (bytes: Result<
    Vec<u8>,
    DnsError,
>)
    ensures
        is_encoded(reply_to(request@, response_code, byte_views(answers@)), bytes),
{
    let mut questions: Vec<Vec<u8>> = Vec::new();
    for i in 0..request.questions.len()
        invariant
            byte_views(questions@) =~= question_bytes(request@.questions).take(i as int),
    {
        let ghost before = byte_views(questions@);
        assert(question_bytes(request@.questions)[i as int] == request.questions@[i as int].wire@);
        let wire = request.questions[i].wire.clone();
        assert(wire@ =~= request.questions@[i as int].wire@);
        questions.push(wire);
        assert(byte_views(questions@) =~= before.push(wire@));
    }
    let reply = Reply {
        id: request.id,
        op_code: request.op_code,
        recursion_desired: request.recursion_desired,
        recursion_available: true,
        response_code,
        questions,
        answers,
    };
    assert(reply@ =~= reply_to(request@, response_code, byte_views(answers@)));
    match encode_reply(&reply) {
        Ok(bytes) => Ok(bytes),
        Err(error) => Err(DnsError { message: join("encode DNS response: ", error.as_str()) }),
    }
}

/// What follows a request.
pub enum WireStep {
    /// The reply is known.
    Reply(Vec<u8>),
    /// A query is to be resolved first.
    Ask(Request, DnsQuery),
}

/// The same over plain values: the code of a reply, the name and the number of
/// the kind of a query, or what is said of the name.
pub enum WireModel {
    Reply(u8),
    Ask(Seq<char>, u16),
    Refused(Seq<char>),
}

/// What follows a request that was read.
pub open spec fn wire_step(request: RequestModel) -> WireModel {
    if request.questions.len() != 1 {
        WireModel::Reply(FORM_ERROR)
    } else {
        match name_fault(normalized(request.questions[0].name)) {
            None => WireModel::Ask(
                normalized(request.questions[0].name),
                request.questions[0].kind,
            ),
            Some(message) => WireModel::Refused(message),
        }
    }
}

/// Whether a step is what follows a request.
pub open spec fn steps_by(
    step: Result<WireStep, DnsError>,
    request: RequestModel,
    model: WireModel,
) -> bool {
    match model {
        WireModel::Reply(code) => match step {
            Ok(WireStep::Reply(bytes)) => is_encoded(
                reply_to(request, code, Seq::empty()),
                Ok(bytes),
            ),
            Ok(WireStep::Ask(_, _)) => false,
            Err(error) => is_encoded(reply_to(request, code, Seq::empty()), Err(error)),
        },
        WireModel::Ask(name, kind) => step matches Ok(WireStep::Ask(kept, query)) && kept@ == request
            && query.name@ == name && query.record_type.code_of() == kind,
        WireModel::Refused(message) => step matches Err(error) && error.message@ == message,
    }
}

/// What follows a request that was read. A request is answered only where it
/// holds one question.
pub fn take_request(request: Request) -> (step: Result<WireStep, DnsError>)
    ensures
        if request@.questions.len() != 1 {
            let reply = reply_to(request@, FORM_ERROR, Seq::empty());
            match step {
                Ok(WireStep::Reply(bytes)) => is_encoded(reply, Ok(bytes)),
                Ok(WireStep::Ask(_, _)) => false,
                Err(error) => is_encoded(reply, Err(error)),
            }
        } else {
            let question = request@.questions[0];
            match name_fault(normalized(question.name)) {
                None => step matches Ok(WireStep::Ask(kept, query)) && kept@ == request@
                    && query.name@ == normalized(question.name) && query.record_type.code_of()
                    == question.kind && query.record_type.named() && query.name.wf(),
                Some(message) => step matches Err(error) && error.message@ == message,
            }
        },
        steps_by(step, request@, wire_step(request@)),
{
    if request.questions.len() != 1 {
        let answers: Vec<Vec<u8>> = Vec::new();
        assert(byte_views(answers@) =~= Seq::empty());
        return match encode(&request, FORM_ERROR, answers) {
            Ok(bytes) => Ok(WireStep::Reply(bytes)),
            Err(error) => Err(error),
        };
    }
    assert(request@.questions[0] == request.questions@[0]@);
    let record_type = DnsRecordType::from_code(request.questions[0].kind);
    match DnsName::from_text(request.questions[0].name.as_str()) {
        Ok(name) => {
            let query = DnsQuery { name, record_type };
            Ok(WireStep::Ask(request, query))
        },
        Err(error) => Err(error),
    }
}

/// Reads a request.
pub fn exchange_wire(packet: &[u8]) -> (step: Result<WireStep, DnsError>)
    ensures
        match message_parts(packet@) {
            Err(text) => step matches Err(error) && error.message@ == "decode DNS request: "@
                + text,
            Ok(request) => if request.questions.len() != 1 {
                let reply = reply_to(request, FORM_ERROR, Seq::empty());
                match step {
                    Ok(WireStep::Reply(bytes)) => is_encoded(reply, Ok(bytes)),
                    Ok(WireStep::Ask(_, _)) => false,
                    Err(error) => is_encoded(reply, Err(error)),
                }
            } else {
                let question = request.questions[0];
                match name_fault(normalized(question.name)) {
                    None => step matches Ok(WireStep::Ask(kept, query)) && kept@ == request
                        && query.name@ == normalized(question.name) && query.record_type.code_of()
                        == question.kind && query.record_type.named() && query.name.wf(),
                    Some(message) => step matches Err(error) && error.message@ == message,
                }
            },
        },
{
    match decode_message(packet) {
        Ok(request) => take_request(request),
        Err(error) => Err(DnsError { message: join("decode DNS request: ", error.as_str()) }),
    }
}

/// The records of a reply: those of the response, or else one for each address
/// that it answers.
pub open spec fn reply_records(question: Seq<u8>, response: ResponseModel) -> Result<
    Seq<Seq<u8>>,
    Seq<char>,
> {
    if response.records.len() > 0 {
        Ok(response.records.map_values(|record: crate::dns::model::RecordModel| record.wire))
    } else {
        address_records(question, response.answers)
    }
}

/// One record for each address among answers.
pub open spec fn address_records(question: Seq<u8>, answers: Seq<(HostModel, u32)>) -> Result<
    Seq<Seq<u8>>,
    Seq<char>,
>
    decreases answers.len(),
{
    if answers.len() == 0 {
        Ok(Seq::empty())
    } else {
        match address_records(question, answers.drop_last()) {
            Err(text) => Err(text),
            Ok(head) => match answers.last().0 {
                HostModel::Domain(_) => Ok(head),
                HostModel::Ip(ip) => match address_record(
                    question,
                    answers.last().1,
                    ip.octets(),
                ) {
                    Ok(record) => Ok(head.push(record)),
                    Err(text) => Err(text),
                },
            },
        }
    }
}

proof fn lemma_first_fault(question: Seq<u8>, answers: Seq<(HostModel, u32)>, upto: int)
    requires
        0 <= upto <= answers.len(),
        address_records(question, answers.take(upto)) is Err,
    ensures
        address_records(question, answers) == address_records(question, answers.take(upto)),
    decreases answers.len(),
{
    if upto < answers.len() {
        assert(answers.drop_last().take(upto) =~= answers.take(upto));
        lemma_first_fault(question, answers.drop_last(), upto);
    } else {
        assert(answers.take(upto) =~= answers);
    }
}

fn make_records(question: &[u8], answers: &Vec<DnsAnswer>) -> (records: Result<
    Vec<Vec<u8>>,
    String,
>)
    ensures
        match address_records(question@, crate::dns::model::answer_views(answers@)) {
            Ok(list) => records matches Ok(found) && byte_views(found@) == list,
            Err(text) => records matches Err(error) && error@ == text,
        },
{
    let mut records: Vec<Vec<u8>> = Vec::new();
    let ghost all = crate::dns::model::answer_views(answers@);
    assert(byte_views(records@) =~= Seq::empty());
    for i in 0..answers.len()
        invariant
            all == crate::dns::model::answer_views(answers@),
            address_records(question@, all.take(i as int)) == Ok::<Seq<Seq<u8>>, Seq<char>>(
                byte_views(records@),
            ),
    {
        assert(all.take(i + 1).drop_last() =~= all.take(i as int));
        assert(all.take(i + 1).last() == answers@[i as int]@);
        let ghost before = byte_views(records@);
        match &answers[i].host {
            Host::Domain(_) => {},
            Host::Ip(ip) => match encode_address(question, answers[i].ttl_seconds, ip) {
                Ok(record) => {
                    records.push(record);
                    assert(byte_views(records@) =~= before.push(record@));
                },
                Err(error) => {
                    proof {
                        lemma_first_fault(question@, all, i + 1);
                    }
                    return Err(error);
                },
            },
        }
    }
    assert(all.take(answers@.len() as int) =~= all);
    Ok(records)
}

/// The reply to a request whose query was resolved, or could not be.
pub open spec fn reply_of(request: RequestModel, response: Option<ResponseModel>) -> Result<
    ReplyModel,
    Seq<char>,
> {
    match response {
        None => Ok(reply_to(request, SERVER_FAILURE, Seq::empty())),
        Some(response) => match reply_records(request.questions[0].wire, response) {
            Ok(records) => Ok(reply_to(request, 0, records)),
            Err(text) => Err(text),
        },
    }
}

/// The reply to a request whose query was resolved, or could not be.
pub fn answer_wire(request: &Request, outcome: &Result<DnsResponse, DnsError>) -> (bytes: Result<
    Vec<u8>,
    DnsError,
>)
    requires
        request@.questions.len() == 1,
    ensures
        match *outcome {
            Err(_) => is_encoded(reply_to(request@, SERVER_FAILURE, Seq::empty()), bytes),
            Ok(response) => match reply_records(request@.questions[0].wire, response@) {
                Ok(records) => is_encoded(reply_to(request@, 0, records), bytes),
                Err(text) => bytes matches Err(error) && error.message@
                    == "encode DNS response: "@ + text,
            },
        },
        match reply_of(
            request@,
            match *outcome {
                Ok(response) => Some(response@),
                Err(_) => None,
            },
        ) {
            Ok(reply) => is_encoded(reply, bytes),
            Err(_) => bytes is Err,
        },
{
    assert(request@.questions[0] == request.questions@[0]@);
    match outcome {
        Err(_) => {
            let answers: Vec<Vec<u8>> = Vec::new();
            assert(byte_views(answers@) =~= Seq::empty());
            encode(request, SERVER_FAILURE, answers)
        },
        Ok(response) => {
            if response.records.len() == 0 {
                return match make_records(
                    request.questions[0].wire.as_slice(),
                    &response.answers,
                ) {
                    Ok(records) => encode(request, 0, records),
                    Err(error) => Err(
                        DnsError { message: join("encode DNS response: ", error.as_str()) },
                    ),
                };
            }
            let mut records: Vec<Vec<u8>> = Vec::new();
            let ghost all = response@.records.map_values(
                |record: crate::dns::model::RecordModel| record.wire,
            );
            for i in 0..response.records.len()
                invariant
                    all == response@.records.map_values(
                        |record: crate::dns::model::RecordModel| record.wire,
                    ),
                    byte_views(records@) =~= all.take(i as int),
            {
                let ghost before = byte_views(records@);
                let wire = response.records[i].wire.clone();
                assert(wire@ =~= response.records@[i as int].wire@);
                assert(all[i as int] == wire@);
                records.push(wire);
                assert(byte_views(records@) =~= before.push(wire@));
            }
            assert(byte_views(records@) =~= all);
            encode(request, 0, records)
        },
    }
}

/// Every reply carries the identifier, the operation, the recursion flag and
/// the questions of its request.
pub proof fn law_reply_keeps_request(request: RequestModel, response_code: u8, answers: Seq<Seq<u8>>)
    ensures
        ({
            let reply = reply_to(request, response_code, answers);
            &&& reply.id == request.id
            &&& reply.op_code == request.op_code
            &&& reply.recursion_desired == request.recursion_desired
            &&& reply.recursion_available
            &&& reply.questions.len() == request.questions.len()
            &&& forall|i: int|
                0 <= i < request.questions.len() ==> #[trigger] reply.questions[i]
                    == request.questions[i].wire
        }),
{
}

/// A reply that a request makes no sense has the code one, and a reply that the
/// server failed the code two.
pub proof fn law_reply_codes()
    ensures
        FORM_ERROR == 1,
        SERVER_FAILURE == 2,
{
}

/// The records that a server gave are passed on as they came and in their order.
pub proof fn law_records_passed_on(question: Seq<u8>, response: ResponseModel, at: int)
    requires
        0 <= at < response.records.len(),
    ensures
        reply_records(question, response) matches Ok(records) && records.len()
            == response.records.len() && records[at] == response.records[at].wire,
{
}

/// Without records a reply has one for each address that is answered, with its
/// time to live and in the order of the answers; names give none.
pub proof fn law_records_made(question: Seq<u8>, response: ResponseModel, last: (HostModel, u32))
    requires
        response.records.len() == 0,
    ensures
        response.answers.len() == 0 ==> reply_records(question, response) == Ok::<
            Seq<Seq<u8>>,
            Seq<char>,
        >(Seq::empty()),
        ({
            let longer = ResponseModel { answers: response.answers.push(last), ..response };
            match (reply_records(question, response), last.0) {
                (Err(error), _) => reply_records(question, longer) == Err::<
                    Seq<Seq<u8>>,
                    Seq<char>,
                >(error),
                (Ok(records), HostModel::Domain(_)) => reply_records(question, longer) == Ok::<
                    Seq<Seq<u8>>,
                    Seq<char>,
                >(records),
                (Ok(records), HostModel::Ip(ip)) => match address_record(
                    question,
                    last.1,
                    ip.octets(),
                ) {
                    Ok(record) => reply_records(question, longer) == Ok::<
                        Seq<Seq<u8>>,
                        Seq<char>,
                    >(records.push(record)),
                    Err(error) => reply_records(question, longer) == Err::<
                        Seq<Seq<u8>>,
                        Seq<char>,
                    >(error),
                },
            }
        }),
{
    let longer = response.answers.push(last);
    assert(longer.drop_last() =~= response.answers);
}

/// A request with one question asks for the name of that question, as names are
/// kept, and for its kind; a name that cannot be one is refused. A request with
/// none or several is told that it makes no sense.
pub proof fn law_request_taken(request: RequestModel)
    ensures
        request.questions.len() != 1 ==> wire_step(request) == WireModel::Reply(1),
        request.questions.len() == 1 ==> {
            let question = request.questions[0];
            match name_fault(normalized(question.name)) {
                None => wire_step(request) == WireModel::Ask(
                    normalized(question.name),
                    question.kind,
                ),
                Some(_) => wire_step(request) is Refused,
            }
        },
{
}

/// A query that could not be resolved is answered with the code two and nothing
/// else; one that was, with the code zero and the records of the response. Every
/// reply carries its request's identifier.
pub proof fn law_replied(request: RequestModel, response: ResponseModel)
    requires
        request.questions.len() == 1,
    ensures
        reply_of(request, None) matches Ok(reply) && reply.response_code == 2 && reply.answers.len()
            == 0 && reply.id == request.id,
        reply_of(request, Some(response)) matches Ok(reply) ==> reply.response_code == 0 && reply.id
            == request.id && reply_records(request.questions[0].wire, response) == Ok::<
            Seq<Seq<u8>>,
            Seq<char>,
        >(reply.answers),
        response.records.len() > 0 ==> (reply_of(request, Some(response)) matches Ok(reply)
            && reply.answers.len() == response.records.len() && forall|i: int|
            0 <= i < response.records.len() ==> #[trigger] reply.answers[i]
                == response.records[i].wire),
{
}

} // verus!

//! DNS messages as plain values, and the calls into the wire codec that
//! decode them.

use crate::record::{RecordType, ResourceRecord, ResourceRecordView};
use hickory_proto::op::{Header as WireHeader, Message as WireMessage, MessageType};
use hickory_proto::serialize::binary::{BinDecodable, BinEncodable};
use vstd::prelude::*;

verus! {

/// The header of a message, without its four counts: the id, the flags and
/// the two codes.
#[derive(Clone, Copy, Debug, PartialEq, Eq, Structural)]
pub struct Header {
    pub id: u16,
    /// Whether the message is a response; a query otherwise.
    pub response: bool,
    pub op_code: u8,
    pub authoritative: bool,
    pub truncated: bool,
    pub recursion_desired: bool,
    pub recursion_available: bool,
    pub authentic_data: bool,
    pub checking_disabled: bool,
    pub response_code: u16,
}

impl Header {
    /// The header of the response to the request with header `request`: the
    /// id, the operation code and the two flags that a client sets for the
    /// server (recursion desired, checking disabled) are taken over; the
    /// response flag is set; every other flag is clear and the response code
    /// is zero, which says that there was no error.
    pub open spec fn spec_response_from_request(request: Header) -> Header {
        Header {
            id: request.id,
            response: true,
            op_code: request.op_code,
            authoritative: false,
            truncated: false,
            recursion_desired: request.recursion_desired,
            recursion_available: false,
            authentic_data: false,
            checking_disabled: request.checking_disabled,
            response_code: 0,
        }
    }

    /// The header of the response to the request with header `request`.
    pub fn response_from_request(request: &Header) -> (header: Header)
        ensures
            header == Self::spec_response_from_request(*request),
    {
        Header {
            id: request.id,
            response: true,
            op_code: request.op_code,
            authoritative: false,
            truncated: false,
            recursion_desired: request.recursion_desired,
            recursion_available: false,
            authentic_data: false,
            checking_disabled: request.checking_disabled,
            response_code: 0,
        }
    }
}

/// One question: a name, a type and a class.
#[derive(Clone, Debug, PartialEq, Eq)]
pub struct Query {
    pub name: String,
    pub query_type: RecordType,
    pub query_class: u16,
}

/// The mathematical value of a `Query`.
pub struct QueryView {
    pub name: Seq<char>,
    pub query_type: RecordType,
    pub query_class: u16,
}

impl View for Query {
    type V = QueryView;

    open spec fn view(&self) -> QueryView {
        QueryView { name: self.name@, query_type: self.query_type, query_class: self.query_class }
    }
}

impl Query {
    /// A question for `name`, of the type and the class with the given
    /// numbers.
    pub fn new(name: String, type_code: u16, query_class: u16) -> (query: Self)
        ensures
            query@ == (QueryView {
                name: name@,
                query_type: RecordType::spec_from_code(type_code),
                query_class,
            }),
    {
        Query { name, query_type: RecordType::from_code(type_code), query_class }
    }

    /// A copy of this question.
    pub fn duplicate(&self) -> (copy: Self)
        ensures
            copy@ == self@,
    {
        Query {
            name: self.name.clone(),
            query_type: self.query_type,
            query_class: self.query_class,
        }
    }
}

/// The questions and the answers of a decoded message.
#[derive(Clone, Debug, PartialEq, Eq)]
pub struct Message {
    pub queries: Vec<Query>,
    pub answers: Vec<ResourceRecord>,
}

/// The mathematical value of a `Message`.
pub struct MessageView {
    pub queries: Seq<QueryView>,
    pub answers: Seq<ResourceRecordView>,
}

impl View for Message {
    type V = MessageView;

    open spec fn view(&self) -> MessageView {
        MessageView {
            queries: self.queries@.map_values(|q: Query| q@),
            answers: records_view(self.answers@),
        }
    }
}

/// A request to an upstream resolver: one question, under the header of the
/// request that asked it.
#[derive(Clone, Debug, PartialEq, Eq)]
pub struct Request {
    pub header: Header,
    pub query: Query,
}

/// The mathematical value of a `Request`.
pub struct RequestView {
    pub header: Header,
    pub query: QueryView,
}

impl View for Request {
    type V = RequestView;

    open spec fn view(&self) -> RequestView {
        RequestView { header: self.header, query: self.query@ }
    }
}

/// A response: the header that it takes over from its request, and its
/// answers. It repeats no question.
#[derive(Clone, Debug, PartialEq, Eq)]
pub struct Response {
    pub header: Header,
    pub answers: Vec<ResourceRecord>,
}

/// The mathematical value of a `Response`.
pub struct ResponseView {
    pub header: Header,
    pub answers: Seq<ResourceRecordView>,
}

impl View for Response {
    type V = ResponseView;

    open spec fn view(&self) -> ResponseView {
        ResponseView { header: self.header, answers: records_view(self.answers@) }
    }
}

/// The values of a sequence of records, one for one.
pub open spec fn records_view(records: Seq<ResourceRecord>) -> Seq<ResourceRecordView> {
    records.map_values(|r: ResourceRecord| r@)
}

/// The header that the bytes start with, if they start with one.
///
/// How a header is laid out in bytes is the wire codec's matter.
pub uninterp spec fn decoded_header(bytes: Seq<u8>) -> Option<Header>;

/// The questions and the answers of the message that the bytes hold, if
/// they hold one.
///
/// Which bytes are a message, and what it says, is the wire codec's matter.
pub uninterp spec fn decoded(bytes: Seq<u8>) -> Option<MessageView>;

/// Calls `hickory_proto::op::Header::from_bytes` and copies out the id, the
/// flags and the two codes by their numbers.
///
/// Trusted: the outcome depends on the bytes alone. Nothing is claimed of
/// which bytes decode, nor of what the header holds; `decoded_header` names
/// it.
#[verifier::external_body]
pub(crate) fn decode_header(bytes: &[u8]) -> (r: Option<Header>)
    ensures
        r == decoded_header(bytes@),
{
    let h = WireHeader::from_bytes(bytes).ok()?;
    let response = match h.message_type() {
        MessageType::Query => false,
        MessageType::Response => true,
    };
    Some(Header {
        id: h.id(), response, op_code: h.op_code().into(),
        authoritative: h.authoritative(), truncated: h.truncated(),
        recursion_desired: h.recursion_desired(), recursion_available: h.recursion_available(),
        authentic_data: h.authentic_data(), checking_disabled: h.checking_disabled(),
        response_code: h.response_code().into(),
    })
}

/// Calls `hickory_proto::op::Message::from_bytes` and copies out each
/// question, and each answer with its data encoded again by the codec, on
/// its own.
///
/// Trusted: the outcome depends on the bytes alone. Nothing is claimed of
/// which bytes decode, nor of what the message holds; `decoded` names it.
#[verifier::external_body]
pub(crate) fn decode(bytes: &[u8]) -> (r: Option<Message>)
    ensures
        r matches Some(message) ==> decoded(bytes@) == Some(message@),
        r is None ==> decoded(bytes@) is None,
{
    let m = WireMessage::from_bytes(bytes).ok()?;
    let queries = m.queries().iter().map(
        |q| Query::new(q.name().to_string(), q.query_type().into(), q.query_class().into()),
    );
    let answers = m.answers().iter().map(
        |r| {
            let data = r.data().to_bytes().ok()?;
            Some(ResourceRecord::relayed(r.name().to_string(), r.ttl(), r.record_type().into(), data))
        },
    );
    Some(Message { queries: queries.collect(), answers: answers.collect::<Option<_>>()? })
}

} // verus!

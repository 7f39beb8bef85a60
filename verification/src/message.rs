//! The decoded DNS message model the resolution core works on: queries,
//! records, and the message with its answer and authority sections.

use vstd::prelude::*;

use crate::name::DomainName;
use crate::rdata::{RData, RDataV};

verus! {

/// The operation a message asks for.
#[derive(Clone, Copy, Debug, PartialEq, Eq, Structural)]
pub enum OpCode {
    Query,
    Status,
    Notify,
    Update,
}

/// Whether a message is a question or an answer.
#[derive(Clone, Copy, Debug, PartialEq, Eq, Structural)]
pub enum MessageType {
    Query,
    Response,
}

/// The response codes the engine emits.
#[derive(Clone, Copy, Debug, PartialEq, Eq, Structural)]
pub enum ResponseCode {
    NoError,
    NXDomain,
    NotImp,
}

/// One question: a name and a wire record-type code.
#[derive(Debug)]
pub struct Query {
    pub name: DomainName,
    pub query_type: u16,
}

/// The abstract contents of a `Query`.
#[verifier::ext_equal]
pub struct QueryV {
    pub name: Seq<char>,
    pub query_type: u16,
}

impl View for Query {
    type V = QueryV;

    open spec fn view(&self) -> QueryV {
        QueryV { name: self.name@, query_type: self.query_type }
    }
}

impl Clone for Query {
    fn clone(&self) -> (r: Self)
        ensures
            r == *self,
    {
        Query { name: self.name.clone(), query_type: self.query_type }
    }
}

impl Query {
    /// Build a question for a name and a wire type code.
    pub fn new(name: DomainName, query_type: u16) -> (r: Query)
        ensures
            r.name == name,
            r.query_type == query_type,
    {
        Query { name, query_type }
    }

    /// The queried name.
    pub fn name(&self) -> (r: &DomainName)
        ensures
            r == &self.name,
    {
        &self.name
    }

    /// The queried wire type code.
    pub fn query_type(&self) -> (r: u16)
        ensures
            r == self.query_type,
    {
        self.query_type
    }
}

/// One resource record: owner name, time to live, and typed data.
#[derive(Debug)]
pub struct Record {
    pub name: DomainName,
    pub ttl: u32,
    pub rdata: RData,
}

/// The abstract contents of a `Record`.
#[verifier::ext_equal]
pub struct RecordV {
    pub name: Seq<char>,
    pub ttl: u32,
    pub rdata: RDataV,
}

impl View for Record {
    type V = RecordV;

    open spec fn view(&self) -> RecordV {
        RecordV { name: self.name@, ttl: self.ttl, rdata: self.rdata@ }
    }
}

impl Clone for Record {
    fn clone(&self) -> (r: Self)
        ensures
            r@ == self@,
    {
        Record { name: self.name.clone(), ttl: self.ttl, rdata: self.rdata.clone() }
    }
}

impl Record {
    /// Build a record from its owner name, time to live, and data.
    pub fn new(name: DomainName, ttl: u32, rdata: RData) -> (r: Record)
        ensures
            r@ == (RecordV { name: name@, ttl, rdata: rdata@ }),
    {
        Record { name, ttl, rdata }
    }

    /// The owner name.
    pub fn name(&self) -> (r: &DomainName)
        ensures
            r == &self.name,
    {
        &self.name
    }

    /// The time to live.
    pub fn ttl(&self) -> (r: u32)
        ensures
            r == self.ttl,
    {
        self.ttl
    }

    /// The typed data.
    pub fn rdata(&self) -> (r: &RData)
        ensures
            r == &self.rdata,
    {
        &self.rdata
    }
}

/// The views of a sequence of queries.
pub open spec fn views_of_queries(qs: Seq<Query>) -> Seq<QueryV> {
    qs.map_values(|q: Query| q@)
}

/// The views of a sequence of records.
pub open spec fn views_of_records(rs: Seq<Record>) -> Seq<RecordV> {
    rs.map_values(|r: Record| r@)
}

/// Clone a list of queries, keeping every element.
pub fn clone_queries(qs: &Vec<Query>) -> (r: Vec<Query>)
    ensures
        r@ == qs@,
{
    let mut out: Vec<Query> = Vec::new();
    let mut i: usize = 0;
    while i < qs.len()
        invariant
            0 <= i <= qs.len(),
            out@.len() == i,
            forall|j: int| 0 <= j < i ==> out@[j] == qs@[j],
        decreases qs.len() - i,
    {
        out.push(qs[i].clone());
        i = i + 1;
    }
    proof {
        assert(out@ =~= qs@);
    }
    out
}

/// Clone a list of records, keeping the contents of every element.
pub fn clone_records(rs: &Vec<Record>) -> (r: Vec<Record>)
    ensures
        views_of_records(r@) == views_of_records(rs@),
{
    let mut out: Vec<Record> = Vec::new();
    let mut i: usize = 0;
    while i < rs.len()
        invariant
            0 <= i <= rs.len(),
            out@.len() == i,
            forall|j: int| 0 <= j < i ==> (#[trigger] out@[j])@ == rs@[j]@,
        decreases rs.len() - i,
    {
        out.push(rs[i].clone());
        i = i + 1;
    }
    proof {
        assert(views_of_records(out@) =~= views_of_records(rs@));
    }
    out
}

/// A decoded DNS message, reduced to what the engine reads and writes.
#[derive(Debug)]
pub struct Message {
    pub id: u16,
    pub op_code: OpCode,
    pub message_type: MessageType,
    pub response_code: ResponseCode,
    pub authoritative: bool,
    pub queries: Vec<Query>,
    pub answers: Vec<Record>,
    pub name_servers: Vec<Record>,
}

/// The abstract contents of a `Message`.
#[verifier::ext_equal]
pub struct MessageV {
    pub id: u16,
    pub op_code: OpCode,
    pub message_type: MessageType,
    pub response_code: ResponseCode,
    pub authoritative: bool,
    pub queries: Seq<QueryV>,
    pub answers: Seq<RecordV>,
    pub name_servers: Seq<RecordV>,
}

impl View for Message {
    type V = MessageV;

    open spec fn view(&self) -> MessageV {
        MessageV {
            id: self.id,
            op_code: self.op_code,
            message_type: self.message_type,
            response_code: self.response_code,
            authoritative: self.authoritative,
            queries: views_of_queries(self.queries@),
            answers: views_of_records(self.answers@),
            name_servers: views_of_records(self.name_servers@),
        }
    }
}

impl Message {
    /// A fresh message: everything zeroed and empty.
    pub fn new() -> (r: Message)
        ensures
            r@ == (MessageV {
                id: 0,
                op_code: OpCode::Query,
                message_type: MessageType::Query,
                response_code: ResponseCode::NoError,
                authoritative: false,
                queries: Seq::<QueryV>::empty(),
                answers: Seq::<RecordV>::empty(),
                name_servers: Seq::<RecordV>::empty(),
            }),
    {
        let r = Message {
            id: 0,
            op_code: OpCode::Query,
            message_type: MessageType::Query,
            response_code: ResponseCode::NoError,
            authoritative: false,
            queries: Vec::new(),
            answers: Vec::new(),
            name_servers: Vec::new(),
        };
        proof {
            assert(r@ =~= (MessageV {
                id: 0,
                op_code: OpCode::Query,
                message_type: MessageType::Query,
                response_code: ResponseCode::NoError,
                authoritative: false,
                queries: Seq::<QueryV>::empty(),
                answers: Seq::<RecordV>::empty(),
                name_servers: Seq::<RecordV>::empty(),
            }));
        }
        r
    }

    /// A bare error response carrying only the request's id and op code.
    pub fn error_msg(id: u16, op_code: OpCode, response_code: ResponseCode) -> (r: Message)
        ensures
            r@ == (MessageV {
                id,
                op_code,
                message_type: MessageType::Response,
                response_code,
                authoritative: false,
                queries: Seq::<QueryV>::empty(),
                answers: Seq::<RecordV>::empty(),
                name_servers: Seq::<RecordV>::empty(),
            }),
    {
        let mut r = Message::new();
        r.id = id;
        r.op_code = op_code;
        r.message_type = MessageType::Response;
        r.response_code = response_code;
        proof {
            assert(r@ =~= (MessageV {
                id,
                op_code,
                message_type: MessageType::Response,
                response_code,
                authoritative: false,
                queries: Seq::<QueryV>::empty(),
                answers: Seq::<RecordV>::empty(),
                name_servers: Seq::<RecordV>::empty(),
            }));
        }
        r
    }

    pub fn set_id(&mut self, id: u16)
        ensures
            final(self)@ == (MessageV { id, ..old(self)@ }),
    {
        self.id = id;
        proof {
            assert(final(self)@ =~= (MessageV { id, ..old(self)@ }));
        }
    }

    pub fn set_op_code(&mut self, op_code: OpCode)
        ensures
            final(self)@ == (MessageV { op_code, ..old(self)@ }),
    {
        self.op_code = op_code;
        proof {
            assert(final(self)@ =~= (MessageV { op_code, ..old(self)@ }));
        }
    }

    pub fn set_message_type(&mut self, message_type: MessageType)
        ensures
            final(self)@ == (MessageV { message_type, ..old(self)@ }),
    {
        self.message_type = message_type;
        proof {
            assert(final(self)@ =~= (MessageV { message_type, ..old(self)@ }));
        }
    }

    pub fn set_response_code(&mut self, response_code: ResponseCode)
        ensures
            final(self)@ == (MessageV { response_code, ..old(self)@ }),
    {
        self.response_code = response_code;
        proof {
            assert(final(self)@ =~= (MessageV { response_code, ..old(self)@ }));
        }
    }

    pub fn set_authoritative(&mut self, authoritative: bool)
        ensures
            final(self)@ == (MessageV { authoritative, ..old(self)@ }),
    {
        self.authoritative = authoritative;
        proof {
            assert(final(self)@ =~= (MessageV { authoritative, ..old(self)@ }));
        }
    }

    /// Append questions to the message.
    pub fn add_queries(&mut self, mut qs: Vec<Query>)
        ensures
            final(self)@ == (MessageV {
                queries: old(self)@.queries + views_of_queries(qs@),
                ..old(self)@
            }),
    {
        let ghost added = qs@;
        self.queries.append(&mut qs);
        proof {
            assert(views_of_queries(old(self).queries@ + added) =~= views_of_queries(
                old(self).queries@,
            ) + views_of_queries(added));
            assert(final(self)@ =~= (MessageV {
                queries: old(self)@.queries + views_of_queries(added),
                ..old(self)@
            }));
        }
    }

    /// Append records to the answer section.
    pub fn add_answers(&mut self, mut rs: Vec<Record>)
        ensures
            final(self)@ == (MessageV {
                answers: old(self)@.answers + views_of_records(rs@),
                ..old(self)@
            }),
    {
        let ghost added = rs@;
        self.answers.append(&mut rs);
        proof {
            assert(views_of_records(old(self).answers@ + added) =~= views_of_records(
                old(self).answers@,
            ) + views_of_records(added));
            assert(final(self)@ =~= (MessageV {
                answers: old(self)@.answers + views_of_records(added),
                ..old(self)@
            }));
        }
    }

    /// Append records to the authority section.
    pub fn add_name_servers(&mut self, mut rs: Vec<Record>)
        ensures
            final(self)@ == (MessageV {
                name_servers: old(self)@.name_servers + views_of_records(rs@),
                ..old(self)@
            }),
    {
        let ghost added = rs@;
        self.name_servers.append(&mut rs);
        proof {
            assert(views_of_records(old(self).name_servers@ + added) =~= views_of_records(
                old(self).name_servers@,
            ) + views_of_records(added));
            assert(final(self)@ =~= (MessageV {
                name_servers: old(self)@.name_servers + views_of_records(added),
                ..old(self)@
            }));
        }
    }

    pub fn id(&self) -> (r: u16)
        ensures
            r == self@.id,
    {
        self.id
    }

    pub fn op_code(&self) -> (r: OpCode)
        ensures
            r == self@.op_code,
    {
        self.op_code
    }

    pub fn message_type(&self) -> (r: MessageType)
        ensures
            r == self@.message_type,
    {
        self.message_type
    }

    pub fn response_code(&self) -> (r: ResponseCode)
        ensures
            r == self@.response_code,
    {
        self.response_code
    }

    pub fn authoritative(&self) -> (r: bool)
        ensures
            r == self@.authoritative,
    {
        self.authoritative
    }

    pub fn queries(&self) -> (r: &Vec<Query>)
        ensures
            r == &self.queries,
    {
        &self.queries
    }

    pub fn answers(&self) -> (r: &Vec<Record>)
        ensures
            r == &self.answers,
    {
        &self.answers
    }

    pub fn name_servers(&self) -> (r: &Vec<Record>)
        ensures
            r == &self.name_servers,
    {
        &self.name_servers
    }
}

} // verus!

//! What a check asks of the network and what comes back.
//!
//! The library performs no query itself. A check hands out a [`Query`], the
//! caller performs it and hands back a [`Reply`].

use vstd::prelude::*;
use crate::text::texts;
use crate::types::CheckError;

verus! {

/// The record types that the checks ask for.
#[derive(Clone, Copy, Debug, PartialEq, Eq, Hash)]
pub enum RecordType {
    A,
    AAAA,
    CNAME,
    MX,
    NS,
    PTR,
    SOA,
    TXT,
    CAA,
    DNSKEY,
    DS,
    SSHFP,
    SRV,
}

impl RecordType {
    /// The name of the record type, as it stands in a zone file.
    pub open spec fn mnemonic(self) -> Seq<char> {
        match self {
            RecordType::A => "A"@,
            RecordType::AAAA => "AAAA"@,
            RecordType::CNAME => "CNAME"@,
            RecordType::MX => "MX"@,
            RecordType::NS => "NS"@,
            RecordType::PTR => "PTR"@,
            RecordType::SOA => "SOA"@,
            RecordType::TXT => "TXT"@,
            RecordType::CAA => "CAA"@,
            RecordType::DNSKEY => "DNSKEY"@,
            RecordType::DS => "DS"@,
            RecordType::SSHFP => "SSHFP"@,
            RecordType::SRV => "SRV"@,
        }
    }

    /// The name of the record type, as it stands in a zone file.
    pub fn name(&self) -> (out: String)
        ensures
            out@ == self.mnemonic(),
    {
        match self {
            RecordType::A => "A".to_owned(),
            RecordType::AAAA => "AAAA".to_owned(),
            RecordType::CNAME => "CNAME".to_owned(),
            RecordType::MX => "MX".to_owned(),
            RecordType::NS => "NS".to_owned(),
            RecordType::PTR => "PTR".to_owned(),
            RecordType::SOA => "SOA".to_owned(),
            RecordType::TXT => "TXT".to_owned(),
            RecordType::CAA => "CAA".to_owned(),
            RecordType::DNSKEY => "DNSKEY".to_owned(),
            RecordType::DS => "DS".to_owned(),
            RecordType::SSHFP => "SSHFP".to_owned(),
            RecordType::SRV => "SRV".to_owned(),
        }
    }
}

/// One piece of work for the network.
#[derive(Clone, Debug, PartialEq, Eq)]
pub enum Query {
    /// Ask the default recursive resolver for the records of `name`.
    Lookup { name: String, record_type: RecordType },
    /// Ask a resolver whose only upstream is `server` (UDP, port 53,
    /// negative answers trusted) for the records of `name`.
    Pinned { server: String, name: String, record_type: RecordType },
    /// Open a TCP connection to port 53 of `address`.
    Connect { address: String },
    /// Ask the default recursive resolver, with DNSSEC validation switched
    /// on, for the records of `name`.
    Validated { name: String, record_type: RecordType },
}

pub enum QueryView {
    Lookup { name: Seq<char>, record_type: RecordType },
    Pinned { server: Seq<char>, name: Seq<char>, record_type: RecordType },
    Connect { address: Seq<char> },
    Validated { name: Seq<char>, record_type: RecordType },
}

impl View for Query {
    type V = QueryView;

    open spec fn view(&self) -> QueryView {
        match self {
            Query::Lookup { name, record_type } => QueryView::Lookup {
                name: name@,
                record_type: *record_type,
            },
            Query::Pinned { server, name, record_type } => QueryView::Pinned {
                server: server@,
                name: name@,
                record_type: *record_type,
            },
            Query::Connect { address } => QueryView::Connect { address: address@ },
            Query::Validated { name, record_type } => QueryView::Validated {
                name: name@,
                record_type: *record_type,
            },
        }
    }
}

/// How a query ended: with the records of the answer, each in its
/// canonical rendering (`name ttl class type rdata..`), or without an
/// answer. A connection that was opened is `Records` without entries.
#[derive(Clone, Debug, PartialEq, Eq)]
pub enum Reply {
    Records(Vec<String>),
    Failure,
}

impl View for Reply {
    type V = Option<Seq<Seq<char>>>;

    open spec fn view(&self) -> Option<Seq<Seq<char>>> {
        match self {
            Reply::Records(records) => Some(texts(records@)),
            Reply::Failure => None,
        }
    }
}

/// Where a check stands after a reply: it needs another query answered, or
/// it has ended, with its report or without one.
#[derive(Debug, PartialEq, Eq)]
pub enum Step<S, R> {
    Next(S),
    Done(Result<R, CheckError>),
}

impl<S: View, R: View> View for Step<S, R> {
    type V = Step<S::V, R::V>;

    open spec fn view(&self) -> Step<S::V, R::V> {
        match self {
            Step::Next(state) => Step::Next(state@),
            Step::Done(Ok(report)) => Step::Done(Ok(report@)),
            Step::Done(Err(e)) => Step::Done(Err(*e)),
        }
    }
}

/// Whether the query behind `reply` was answered.
pub fn answered(reply: &Reply) -> (out: bool)
    ensures
        out == (reply@ is Some),
{
    match reply {
        Reply::Records(_) => true,
        Reply::Failure => false,
    }
}

/// A network that answers the same query in the same way every time.
pub type Resolver = spec_fn(QueryView) -> Option<Seq<Seq<char>>>;

/// A query to the default resolver.
pub open spec fn lookup(name: Seq<char>, record_type: RecordType) -> QueryView {
    QueryView::Lookup { name, record_type }
}

/// A query to the resolver pinned to `server`.
pub open spec fn pinned(server: Seq<char>, name: Seq<char>, record_type: RecordType) -> QueryView {
    QueryView::Pinned { server, name, record_type }
}

/// A connection attempt.
pub open spec fn connect(address: Seq<char>) -> QueryView {
    QueryView::Connect { address }
}

/// A query with DNSSEC validation.
pub open spec fn validated(name: Seq<char>, record_type: RecordType) -> QueryView {
    QueryView::Validated { name, record_type }
}

} // verus!

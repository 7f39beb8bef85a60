//! Per-zone authorities: the origin name and the locally held SOA and NS
//! record sets, with the three-way local search outcome.

use vstd::prelude::*;

use crate::message::{clone_records, views_of_records, Query, QueryV, Record, RecordV};
use crate::name::DomainName;
use crate::record::{WIRE_TYPE_NS, WIRE_TYPE_SOA};

verus! {

/// What the local search found: no such owner name, the owner without
/// records of the asked kind, or the records themselves.
#[derive(Debug)]
pub enum AuthLookup {
    NoName,
    NameExists,
    Records(Vec<Record>),
}

/// The abstract contents of an `AuthLookup`.
#[verifier::ext_equal]
pub enum AuthLookupV {
    NoName,
    NameExists,
    Records(Seq<RecordV>),
}

impl View for AuthLookup {
    type V = AuthLookupV;

    open spec fn view(&self) -> AuthLookupV {
        match self {
            AuthLookup::NoName => AuthLookupV::NoName,
            AuthLookup::NameExists => AuthLookupV::NameExists,
            AuthLookup::Records(rs) => AuthLookupV::Records(views_of_records(rs@)),
        }
    }
}

/// A zone authority: its origin and the apex SOA and NS records. All
/// other records live in the store.
#[derive(Debug)]
pub struct Authority {
    pub origin: DomainName,
    pub soa_records: Vec<Record>,
    pub ns_records: Vec<Record>,
}

/// The abstract contents of an `Authority`.
#[verifier::ext_equal]
pub struct AuthorityV {
    pub origin: Seq<char>,
    pub soa_records: Seq<RecordV>,
    pub ns_records: Seq<RecordV>,
}

impl View for Authority {
    type V = AuthorityV;

    open spec fn view(&self) -> AuthorityV {
        AuthorityV {
            origin: self.origin@,
            soa_records: views_of_records(self.soa_records@),
            ns_records: views_of_records(self.ns_records@),
        }
    }
}

/// What the local search yields: only the apex owner exists locally, and
/// it answers only for its SOA and NS sets.
pub open spec fn search_spec(a: AuthorityV, q: QueryV) -> AuthLookupV {
    if q.name != a.origin {
        AuthLookupV::NoName
    } else if q.query_type == WIRE_TYPE_SOA && a.soa_records.len() > 0 {
        AuthLookupV::Records(a.soa_records)
    } else if q.query_type == WIRE_TYPE_NS && a.ns_records.len() > 0 {
        AuthLookupV::Records(a.ns_records)
    } else {
        AuthLookupV::NameExists
    }
}

/// The local records an authority may serve are owned by its own apex.
pub open spec fn authority_local_wf(a: AuthorityV) -> bool {
    (forall|i: int|
        0 <= i < a.soa_records.len() ==> (#[trigger] a.soa_records[i]).name == a.origin) && (
    forall|i: int|
        0 <= i < a.ns_records.len() ==> (#[trigger] a.ns_records[i]).name == a.origin)
}

impl Authority {
    /// Every local record is owned by the zone apex itself.
    pub open spec fn wf(&self) -> bool {
        authority_local_wf(self@)
    }

    /// Build an authority from its origin and local record sets.
    pub fn new(origin: DomainName, soa_records: Vec<Record>, ns_records: Vec<Record>) -> (r:
        Authority)
        ensures
            r@ == (AuthorityV {
                origin: origin@,
                soa_records: views_of_records(soa_records@),
                ns_records: views_of_records(ns_records@),
            }),
    {
        Authority { origin, soa_records, ns_records }
    }

    /// The zone origin.
    pub fn origin(&self) -> (r: &DomainName)
        ensures
            r == &self.origin,
    {
        &self.origin
    }

    /// Search the local record sets for a question.
    pub fn search(&self, query: &Query) -> (r: AuthLookup)
        ensures
            r@ == search_spec(self@, query@),
    {
        if !query.name().same_as(&self.origin) {
            return AuthLookup::NoName;
        }
        if query.query_type() == WIRE_TYPE_SOA && self.soa_records.len() > 0 {
            return AuthLookup::Records(clone_records(&self.soa_records));
        }
        if query.query_type() == WIRE_TYPE_NS && self.ns_records.len() > 0 {
            return AuthLookup::Records(clone_records(&self.ns_records));
        }
        AuthLookup::NameExists
    }

    /// The zone's SOA records; empty when misconfigured.
    pub fn soa(&self) -> (r: Vec<Record>)
        ensures
            views_of_records(r@) == self@.soa_records,
    {
        clone_records(&self.soa_records)
    }

    /// The zone's NS records; empty when misconfigured.
    pub fn ns(&self) -> (r: Vec<Record>)
        ensures
            views_of_records(r@) == self@.ns_records,
    {
        clone_records(&self.ns_records)
    }
}

} // verus!

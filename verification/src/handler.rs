//! The resolution core: authority selection by longest suffix, the
//! layered lookup (local set, store by exact name, store by wildcard),
//! and response assembly, specified as one function of the request.

use vstd::prelude::*;

use crate::authority::{
    authority_local_wf, search_spec, AuthLookup, AuthLookupV, Authority, AuthorityV,
};
use crate::message::{
    clone_queries, views_of_records, Message, MessageType, MessageV, OpCode, Query, QueryV,
    Record, RecordV, ResponseCode,
};
use crate::name::{base_name_of, lemma_base_name_len, wildcard_of_spec, DomainName};
use crate::rdata::rdata_of;
use crate::record::{from_query_spec, rt_from_code, RecordName, RecordType};
use crate::store::{store_lookup, Store, StoreEntryV, StoreRecord, StoreRecordV, ZoneName};

verus! {

/// One row of the authority table.
#[derive(Debug)]
pub struct AuthorityEntry {
    pub name: DomainName,
    pub authority: Authority,
}

/// The abstract contents of an `AuthorityEntry`.
#[verifier::ext_equal]
pub struct AuthorityEntryV {
    pub name: Seq<char>,
    pub authority: AuthorityV,
}

impl View for AuthorityEntry {
    type V = AuthorityEntryV;

    open spec fn view(&self) -> AuthorityEntryV {
        AuthorityEntryV { name: self.name@, authority: self.authority@ }
    }
}

/// The request handler: the authority table and the default time to live
/// for store records that carry none.
#[derive(Debug)]
pub struct DNSHandler {
    pub authorities: Vec<AuthorityEntry>,
    pub record_ttl: u32,
}

impl View for DNSHandler {
    type V = Seq<AuthorityEntryV>;

    open spec fn view(&self) -> Seq<AuthorityEntryV> {
        self.authorities@.map_values(|e: AuthorityEntry| e@)
    }
}

/// The authority registered under exactly this name, if any.
pub open spec fn table_find(table: Seq<AuthorityEntryV>, name: Seq<char>) -> Option<AuthorityV>
    decreases table.len(),
{
    if table.len() == 0 {
        None
    } else if table[0].name == name {
        Some(table[0].authority)
    } else {
        table_find(table.drop_first(), name)
    }
}

/// Longest-suffix authority selection: try the name itself, then strip
/// one leading label at a time, stopping before the root.
pub open spec fn find_auth_spec(table: Seq<AuthorityEntryV>, name: Seq<char>) -> Option<
    AuthorityV,
>
    decreases name.len(),
    via find_auth_spec_decreases
{
    match table_find(table, name) {
        Some(a) => Some(a),
        None => {
            if base_name_of(name).len() > 0 {
                find_auth_spec(table, base_name_of(name))
            } else {
                None
            }
        },
    }
}

#[via_fn]
proof fn find_auth_spec_decreases(table: Seq<AuthorityEntryV>, name: Seq<char>) {
    lemma_base_name_len(name);
}

/// One value expanded after another, skipping what does not parse.
pub open spec fn expand_values(
    client: Seq<char>,
    kind: RecordType,
    vals: Seq<Seq<char>>,
    ttl: u32,
) -> Seq<RecordV>
    decreases vals.len(),
{
    if vals.len() == 0 {
        Seq::<RecordV>::empty()
    } else {
        let rest = expand_values(client, kind, vals.drop_first(), ttl);
        match rdata_of(vals[0], kind) {
            Some(d) => seq![RecordV { name: client, ttl, rdata: d }] + rest,
            None => rest,
        }
    }
}

/// A store record expanded into wire records owned by the client-facing
/// query name, with the configured default time to live as fallback.
pub open spec fn expand_record(
    client: Seq<char>,
    rec: StoreRecordV,
    default_ttl: u32,
) -> Seq<RecordV> {
    expand_values(
        client,
        rec.kind,
        rec.values,
        match rec.ttl {
            Some(t) => t,
            None => default_ttl,
        },
    )
}

/// One store attempt under an effective name: the direct records, then,
/// for non-CNAME questions, the CNAME records at the same name as a hint,
/// in that order; nothing when every projection fails or both sets are
/// empty.
pub open spec fn store_attempt_spec(
    a: AuthorityV,
    store: Seq<StoreEntryV>,
    client: Seq<char>,
    effective: Seq<char>,
    query_type: u16,
    default_ttl: u32,
) -> Option<Seq<RecordV>> {
    if a.origin.len() > 0 && from_query_spec(a.origin, effective) is Some && rt_from_code(
        query_type,
    ) is Some {
        let m = from_query_spec(a.origin, effective)->Some_0;
        let t = rt_from_code(query_type)->Some_0;
        let direct = match store_lookup(store, a.origin, m, t) {
            Some(sr) => expand_record(client, sr, default_ttl),
            None => Seq::<RecordV>::empty(),
        };
        let hint = if t != RecordType::CNAME {
            match store_lookup(store, a.origin, m, RecordType::CNAME) {
                Some(sr) => expand_record(client, sr, default_ttl),
                None => Seq::<RecordV>::empty(),
            }
        } else {
            Seq::<RecordV>::empty()
        };
        if (direct + hint).len() > 0 {
            Some(direct + hint)
        } else {
            None
        }
    } else {
        None
    }
}

/// The layered store search: the exact name first, then the wildcard
/// owner covering it, answers always tagged with the client's name.
pub open spec fn store_records_spec(
    a: AuthorityV,
    store: Seq<StoreEntryV>,
    q: QueryV,
    default_ttl: u32,
) -> Option<Seq<RecordV>> {
    let exact = store_attempt_spec(a, store, q.name, q.name, q.query_type, default_ttl);
    if exact is Some {
        exact
    } else {
        match wildcard_of_spec(q.name) {
            Some(w) => store_attempt_spec(a, store, q.name, w, q.query_type, default_ttl),
            None => None,
        }
    }
}

/// A positive answer: success code, the authoritative bit, the records in
/// the answer section, and the zone's NS records in the authority section
/// when it has any.
pub open spec fn serve_spec(acc: MessageV, rs: Seq<RecordV>, a: AuthorityV) -> MessageV {
    MessageV {
        response_code: ResponseCode::NoError,
        authoritative: true,
        answers: acc.answers + rs,
        name_servers: acc.name_servers + (if a.ns_records.len() > 0 {
            a.ns_records
        } else {
            Seq::<RecordV>::empty()
        }),
        ..acc
    }
}

/// A negative answer: the code tells an unknown owner from an owner
/// without records of the kind, and the zone's SOA records go to the
/// authority section when it has any.
pub open spec fn negative_spec(acc: MessageV, local: AuthLookupV, a: AuthorityV) -> MessageV {
    MessageV {
        response_code: if local is NoName {
            ResponseCode::NXDomain
        } else {
            ResponseCode::NoError
        },
        name_servers: acc.name_servers + (if a.soa_records.len() > 0 {
            a.soa_records
        } else {
            Seq::<RecordV>::empty()
        }),
        ..acc
    }
}

/// How one question changes the response being assembled.
pub open spec fn process_query_spec(
    table: Seq<AuthorityEntryV>,
    store: Seq<StoreEntryV>,
    q: QueryV,
    acc: MessageV,
    default_ttl: u32,
) -> MessageV {
    match find_auth_spec(table, q.name) {
        None => MessageV { response_code: ResponseCode::NXDomain, ..acc },
        Some(a) => {
            let local = search_spec(a, q);
            if local is Records && (local->Records_0).len() > 0 {
                serve_spec(acc, local->Records_0, a)
            } else {
                match store_records_spec(a, store, q, default_ttl) {
                    Some(rs) => serve_spec(acc, rs, a),
                    None => negative_spec(acc, local, a),
                }
            }
        },
    }
}

/// The questions processed in order, each folding into the response.
pub open spec fn process_queries_spec(
    table: Seq<AuthorityEntryV>,
    store: Seq<StoreEntryV>,
    qs: Seq<QueryV>,
    acc: MessageV,
    default_ttl: u32,
) -> MessageV
    decreases qs.len(),
{
    if qs.len() == 0 {
        acc
    } else {
        process_queries_spec(
            table,
            store,
            qs.drop_first(),
            process_query_spec(table, store, qs[0], acc, default_ttl),
            default_ttl,
        )
    }
}

/// The response every lookup starts from: the request's id, its questions
/// echoed, and empty sections.
pub open spec fn base_response_spec(req: MessageV) -> MessageV {
    MessageV {
        id: req.id,
        op_code: OpCode::Query,
        message_type: MessageType::Response,
        response_code: ResponseCode::NoError,
        authoritative: false,
        queries: req.queries,
        answers: Seq::<RecordV>::empty(),
        name_servers: Seq::<RecordV>::empty(),
    }
}

/// The whole lookup: the base response folded through every question.
pub open spec fn lookup_spec(
    table: Seq<AuthorityEntryV>,
    store: Seq<StoreEntryV>,
    req: MessageV,
    default_ttl: u32,
) -> MessageV {
    process_queries_spec(table, store, req.queries, base_response_spec(req), default_ttl)
}

/// Request dispatch: plain queries are resolved; anything else is
/// answered `NotImp` with the id, op code, and questions echoed.
pub open spec fn handle_spec(
    table: Seq<AuthorityEntryV>,
    store: Seq<StoreEntryV>,
    req: MessageV,
    default_ttl: u32,
) -> MessageV {
    if req.message_type is Query && req.op_code is Query {
        lookup_spec(table, store, req, default_ttl)
    } else {
        MessageV {
            id: req.id,
            op_code: req.op_code,
            message_type: MessageType::Response,
            response_code: ResponseCode::NotImp,
            authoritative: false,
            queries: req.queries,
            answers: Seq::<RecordV>::empty(),
            name_servers: Seq::<RecordV>::empty(),
        }
    }
}

/// What one more value adds to an expansion.
proof fn lemma_expand_snoc(
    client: Seq<char>,
    kind: RecordType,
    vals: Seq<Seq<char>>,
    v: Seq<char>,
    ttl: u32,
)
    ensures
        expand_values(client, kind, vals.push(v), ttl) == expand_values(client, kind, vals, ttl)
            + (match rdata_of(v, kind) {
            Some(d) => seq![RecordV { name: client, ttl, rdata: d }],
            None => Seq::<RecordV>::empty(),
        }),
    decreases vals.len(),
{
    let p = vals.push(v);
    let tail = (match rdata_of(v, kind) {
        Some(d) => seq![RecordV { name: client, ttl, rdata: d }],
        None => Seq::<RecordV>::empty(),
    });
    if vals.len() == 0 {
        assert(p[0] == v);
        assert(p.drop_first() =~= Seq::<Seq<char>>::empty());
        assert(expand_values(client, kind, p.drop_first(), ttl) == Seq::<RecordV>::empty());
        assert(expand_values(client, kind, p, ttl) =~~= expand_values(client, kind, vals, ttl)
            + tail);
    } else {
        assert(p[0] == vals[0]);
        assert(p.drop_first() =~= vals.drop_first().push(v));
        lemma_expand_snoc(client, kind, vals.drop_first(), v, ttl);
        assert(expand_values(client, kind, p, ttl) =~~= expand_values(client, kind, vals, ttl)
            + tail);
    }
}

/// What one more question does to the fold over a message.
proof fn lemma_process_snoc(
    table: Seq<AuthorityEntryV>,
    store: Seq<StoreEntryV>,
    qs: Seq<QueryV>,
    q: QueryV,
    acc: MessageV,
    default_ttl: u32,
)
    ensures
        process_queries_spec(table, store, qs.push(q), acc, default_ttl) == process_query_spec(
            table,
            store,
            q,
            process_queries_spec(table, store, qs, acc, default_ttl),
            default_ttl,
        ),
    decreases qs.len(),
{
    let p = qs.push(q);
    if qs.len() == 0 {
        assert(p[0] == q);
        assert(p.drop_first() =~= Seq::<QueryV>::empty());
        let one = process_query_spec(table, store, q, acc, default_ttl);
        assert(process_queries_spec(table, store, p, acc, default_ttl)
            == process_queries_spec(table, store, p.drop_first(), one, default_ttl));
        assert(process_queries_spec(table, store, p.drop_first(), one, default_ttl) == one);
        assert(process_queries_spec(table, store, qs, acc, default_ttl) == acc);
    } else {
        assert(p[0] == qs[0]);
        assert(p.drop_first() =~= qs.drop_first().push(q));
        let one = process_query_spec(table, store, qs[0], acc, default_ttl);
        lemma_process_snoc(table, store, qs.drop_first(), q, one, default_ttl);
        assert(process_queries_spec(table, store, p, acc, default_ttl)
            == process_queries_spec(table, store, p.drop_first(), one, default_ttl));
        assert(process_queries_spec(table, store, qs, acc, default_ttl)
            == process_queries_spec(table, store, qs.drop_first(), one, default_ttl));
    }
}

proof fn lemma_table_find_skip(table: Seq<AuthorityEntryV>, name: Seq<char>, k: int)
    requires
        0 <= k <= table.len(),
        forall|j: int| 0 <= j < k ==> (#[trigger] table[j]).name != name,
    ensures
        table_find(table, name) == table_find(table.skip(k), name),
    decreases k,
{
    if k > 0 {
        let t = table.drop_first();
        assert(table[0].name != name);
        assert(forall|j: int| 0 <= j < k - 1 ==> (#[trigger] t[j]).name != name);
        lemma_table_find_skip(t, name, k - 1);
        assert(t.skip(k - 1) =~= table.skip(k));
    } else {
        assert(table.skip(0) =~= table);
    }
}

proof fn lemma_table_find_first(table: Seq<AuthorityEntryV>, j: int)
    requires
        0 <= j < table.len(),
        forall|i: int| 0 <= i < j ==> (#[trigger] table[i]).name != table[j].name,
    ensures
        table_find(table, table[j].name) == Some(table[j].authority),
    decreases j,
{
    if j > 0 {
        let t = table.drop_first();
        assert(forall|i: int| 0 <= i < j - 1 ==> (#[trigger] t[i]).name != t[j - 1].name);
        lemma_table_find_first(t, j - 1);
    }
}

proof fn lemma_table_find_update_other(
    table: Seq<AuthorityEntryV>,
    j: int,
    e: AuthorityEntryV,
    m: Seq<char>,
)
    requires
        0 <= j < table.len(),
        table[j].name == e.name,
        m != e.name,
    ensures
        table_find(table.update(j, e), m) == table_find(table, m),
    decreases j,
{
    let u = table.update(j, e);
    if j == 0 {
        assert(u[0].name == e.name);
        assert(u.drop_first() =~= table.drop_first());
    } else {
        assert(u[0] == table[0]);
        assert(u.drop_first() =~= table.drop_first().update(j - 1, e));
        if table[0].name != m {
            lemma_table_find_update_other(table.drop_first(), j - 1, e, m);
        }
    }
}

proof fn lemma_table_find_push(table: Seq<AuthorityEntryV>, e: AuthorityEntryV, m: Seq<char>)
    ensures
        table_find(table.push(e), m) == (match table_find(table, m) {
            Some(a) => Some(a),
            None => if e.name == m {
                Some(e.authority)
            } else {
                None
            },
        }),
    decreases table.len(),
{
    let u = table.push(e);
    if table.len() == 0 {
        assert(u[0] == e);
        assert(u.drop_first() =~= Seq::<AuthorityEntryV>::empty());
    } else {
        assert(u[0] == table[0]);
        assert(u.drop_first() =~= table.drop_first().push(e));
        lemma_table_find_push(table.drop_first(), e, m);
    }
}

impl DNSHandler {
    /// A handler with an empty authority table.
    pub fn new(record_ttl: u32) -> (r: DNSHandler)
        ensures
            r@ == Seq::<AuthorityEntryV>::empty(),
            r.record_ttl == record_ttl,
    {
        let r = DNSHandler { authorities: Vec::new(), record_ttl };
        proof {
            assert(r@ =~= Seq::<AuthorityEntryV>::empty());
        }
        r
    }

    /// Register or replace the authority serving a zone name.
    pub fn upsert(&mut self, name: DomainName, authority: Authority)
        ensures
            table_find(final(self)@, name@) == Some(authority@),
            forall|m: Seq<char>|
                m != name@ ==> #[trigger] table_find(final(self)@, m) == table_find(old(self)@, m),
            final(self).record_ttl == old(self).record_ttl,
    {
        let ghost ev = AuthorityEntryV { name: name@, authority: authority@ };
        let mut j: usize = 0;
        while j < self.authorities.len()
            invariant
                0 <= j <= self.authorities@.len(),
                self == old(self),
                ev == (AuthorityEntryV { name: name@, authority: authority@ }),
                forall|i: int| 0 <= i < j ==> (#[trigger] self@[i]).name != name@,
            decreases self.authorities@.len() - j,
        {
            if self.authorities[j].name.same_as(&name) {
                let ghost tv = self@;
                let ghost va = self.authorities@;
                self.authorities.remove(j);
                proof {
                    assert(self.authorities@ == va.remove(j as int));
                }
                let entry = AuthorityEntry { name, authority };
                proof {
                    assert(entry@ =~~= ev);
                }
                self.authorities.insert(j, entry);
                proof {
                    assert(self.authorities@ == va.remove(j as int).insert(j as int, entry));
                    assert(self.authorities@ =~= va.update(j as int, entry));
                    assert(self@ =~= tv.update(j as int, ev));
                    assert(forall|i: int| 0 <= i < j ==> (#[trigger] self@[i]).name != ev.name);
                    assert(self@[j as int] == ev);
                    lemma_table_find_first(self@, j as int);
                    assert forall|m: Seq<char>| m != ev.name implies #[trigger] table_find(
                        self@,
                        m,
                    ) == table_find(tv, m) by {
                        lemma_table_find_update_other(tv, j as int, ev, m);
                    }
                }
                return ;
            }
            j = j + 1;
        }
        let ghost tv = self@;
        self.authorities.push(AuthorityEntry { name, authority });
        proof {
            assert(self@ =~= tv.push(ev));
            lemma_table_find_skip(tv, ev.name, tv.len() as int);
            assert(tv.skip(tv.len() as int) =~= Seq::<AuthorityEntryV>::empty());
            lemma_table_find_push(tv, ev, ev.name);
            assert forall|m: Seq<char>| m != ev.name implies #[trigger] table_find(
                self@,
                m,
            ) == table_find(tv, m) by {
                lemma_table_find_push(tv, ev, m);
            }
        }
    }

    /// The index of the authority registered under exactly this name.
    fn position_of(&self, name: &DomainName) -> (r: Option<usize>)
        ensures
            match r {
                Some(j) => j < self.authorities@.len() && table_find(self@, name@) == Some(
                    self@[j as int].authority,
                ),
                None => table_find(self@, name@) is None,
            },
    {
        let mut j: usize = 0;
        while j < self.authorities.len()
            invariant
                0 <= j <= self.authorities@.len(),
                forall|i: int| 0 <= i < j ==> (#[trigger] self@[i]).name != name@,
            decreases self.authorities@.len() - j,
        {
            if self.authorities[j].name.same_as(name) {
                proof {
                    lemma_table_find_first(self@, j as int);
                }
                return Some(j);
            }
            j = j + 1;
        }
        proof {
            lemma_table_find_skip(self@, name@, self@.len() as int);
            assert(self@.skip(self@.len() as int) =~= Seq::<AuthorityEntryV>::empty());
        }
        None
    }

    /// Expand a store record into wire records tagged with the client's
    /// name, skipping values outside their kind's grammar.
    fn parse_from_records(
        client: &DomainName,
        record: &StoreRecord,
        default_ttl: u32,
        records: &mut Vec<Record>,
    )
        ensures
            views_of_records(final(records)@) == views_of_records(old(records)@) + expand_record(
                client@,
                record@,
                default_ttl,
            ),
    {
        let ttl = match record.ttl {
            Some(t) => t,
            None => default_ttl,
        };
        let n = record.values.len();
        let mut i: usize = 0;
        while i < n
            invariant
                n == record@.values.len(),
                0 <= i <= n,
                ttl == (match record@.ttl {
                    Some(t) => t,
                    None => default_ttl,
                }),
                views_of_records(records@) =~~= views_of_records(old(records)@) + expand_values(
                    client@,
                    record@.kind,
                    record@.values.take(i as int),
                    ttl,
                ),
            decreases n - i,
        {
            let value = record.values.get(i);
            proof {
                lemma_expand_snoc(
                    client@,
                    record@.kind,
                    record@.values.take(i as int),
                    record@.values[i as int],
                    ttl,
                );
                assert(record@.values.take(i + 1 as int) =~= record@.values.take(
                    i as int,
                ).push(record@.values[i as int]));
            }
            match value.to_wire(&record.kind) {
                Ok(d) => {
                    let ghost dv = d@;
                    let rec = Record::new(client.clone(), ttl, d);
                    proof {
                        assert(rec@ =~~= (RecordV { name: client@, ttl, rdata: dv }));
                    }
                    let ghost bv = records@;
                    records.push(rec);
                    proof {
                        assert(records@ == bv.push(rec));
                        assert(views_of_records(records@) =~~= views_of_records(bv).push(rec@));
                        assert(rdata_of(record@.values[i as int], record@.kind) == Some(dv));
                        assert(expand_values(
                            client@,
                            record@.kind,
                            record@.values.take(i + 1 as int),
                            ttl,
                        ) == expand_values(client@, record@.kind, record@.values.take(i as int), ttl)
                            + seq![RecordV { name: client@, ttl, rdata: dv }]);
                        assert(views_of_records(records@) =~~= views_of_records(old(records)@)
                            + expand_values(
                            client@,
                            record@.kind,
                            record@.values.take(i + 1 as int),
                            ttl,
                        ));
                    }
                },
                Err(_) => {
                    proof {
                        assert(views_of_records(records@) =~~= views_of_records(old(records)@)
                            + expand_values(
                            client@,
                            record@.kind,
                            record@.values.take(i + 1 as int),
                            ttl,
                        ));
                    }
                },
            }
            i = i + 1;
        }
        proof {
            assert(record@.values.take(n as int) =~= record@.values);
        }
    }

    /// One store attempt: direct records under the effective name, then
    /// the CNAME hint for non-CNAME questions.
    fn records_from_store_attempt(
        authority: &Authority,
        store: &Store,
        client: &DomainName,
        effective: &DomainName,
        query_type: u16,
        default_ttl: u32,
    ) -> (r: Option<Vec<Record>>)
        ensures
            match r {
                Some(v) => store_attempt_spec(
                    authority@,
                    store@,
                    client@,
                    effective@,
                    query_type,
                    default_ttl,
                ) == Some(views_of_records(v@)),
                None => store_attempt_spec(
                    authority@,
                    store@,
                    client@,
                    effective@,
                    query_type,
                    default_ttl,
                ) is None,
            },
    {
        let zone = ZoneName::from_name(&authority.origin);
        let record_name = RecordName::from_query(&authority.origin, effective);
        let record_type = RecordType::from_wire(query_type);
        match (zone, record_name, record_type) {
            (Some(zone), Some(record_name), Ok(record_type)) => {
                let mut records: Vec<Record> = Vec::new();
                if let Ok(rec) = store.get(&zone, &record_name, &record_type) {
                    Self::parse_from_records(client, &rec, default_ttl, &mut records);
                }
                if !(record_type == RecordType::CNAME) {
                    if let Ok(rec_cname) = store.get(&zone, &record_name, &RecordType::CNAME) {
                        Self::parse_from_records(client, &rec_cname, default_ttl, &mut records);
                    }
                }
                if records.len() > 0 {
                    Some(records)
                } else {
                    None
                }
            },
            _ => None,
        }
    }

    /// The layered store search: exact name first, then the wildcard
    /// owner, answers tagged with the client's queried name throughout.
    fn records_from_store(
        authority: &Authority,
        store: &Store,
        query: &Query,
        default_ttl: u32,
    ) -> (r: Option<Vec<Record>>)
        ensures
            match r {
                Some(v) => store_records_spec(authority@, store@, query@, default_ttl) == Some(
                    views_of_records(v@),
                ),
                None => store_records_spec(authority@, store@, query@, default_ttl) is None,
            },
    {
        let direct = Self::records_from_store_attempt(
            authority,
            store,
            query.name(),
            query.name(),
            query.query_type(),
            default_ttl,
        );
        match direct {
            Some(v) => Some(v),
            None => match query.name().wildcard() {
                Some(w) => Self::records_from_store_attempt(
                    authority,
                    store,
                    query.name(),
                    &w,
                    query.query_type(),
                    default_ttl,
                ),
                None => None,
            },
        }
    }

    /// Assemble a positive answer into the response.
    fn serve_response_records(response: &mut Message, records: Vec<Record>, authority: &Authority)
        ensures
            final(response)@ == serve_spec(
                old(response)@,
                views_of_records(records@),
                authority@,
            ),
    {
        let ghost rv = views_of_records(records@);
        response.set_response_code(ResponseCode::NoError);
        response.set_authoritative(true);
        response.add_answers(records);
        let ns = authority.ns();
        if ns.len() > 0 {
            response.add_name_servers(ns);
            proof {
                assert(response@ =~~= serve_spec(old(response)@, rv, authority@));
            }
        } else {
            proof {
                assert(old(response)@.name_servers + Seq::<RecordV>::empty() =~= old(
                    response,
                )@.name_servers);
                assert(response@ =~~= serve_spec(old(response)@, rv, authority@));
            }
        }
    }

    /// Resolve one question and fold its outcome into the response.
    fn process_query(&self, store: &Store, query: &Query, response: &mut Message)
        ensures
            final(response)@ == process_query_spec(
                self@,
                store@,
                query@,
                old(response)@,
                self.record_ttl,
            ),
    {
        match self.find_auth(query.name()) {
            None => {
                response.set_response_code(ResponseCode::NXDomain);
                proof {
                    assert(response@ =~~= process_query_spec(
                        self@,
                        store@,
                        query@,
                        old(response)@,
                        self.record_ttl,
                    ));
                }
            },
            Some(authority) => {
                let local = authority.search(query);
                let nonempty = match &local {
                    AuthLookup::Records(rs) => rs.len() > 0,
                    _ => false,
                };
                if nonempty {
                    if let AuthLookup::Records(rs) = local {
                        Self::serve_response_records(response, rs, authority);
                    } else {
                        proof {
                            assert(false);
                        }
                    }
                } else {
                    match Self::records_from_store(authority, store, query, self.record_ttl) {
                        Some(remote) => {
                            Self::serve_response_records(response, remote, authority);
                        },
                        None => {
                            let ghost lv = local@;
                            if matches!(&local, AuthLookup::NoName) {
                                response.set_response_code(ResponseCode::NXDomain);
                            } else {
                                response.set_response_code(ResponseCode::NoError);
                            }
                            let soa = authority.soa();
                            if soa.len() > 0 {
                                response.add_name_servers(soa);
                            } else {
                                proof {
                                    assert(old(response)@.name_servers + Seq::<
                                        RecordV,
                                    >::empty() =~= old(response)@.name_servers);
                                }
                            }
                            proof {
                                assert(response@ =~~= negative_spec(
                                    old(response)@,
                                    lv,
                                    authority@,
                                ));
                            }
                        },
                    }
                }
            },
        }
    }

    /// Resolve every question of a request into one response message.
    pub fn lookup(&self, store: &Store, request: &Message) -> (response: Message)
        ensures
            response@ == lookup_spec(self@, store@, request@, self.record_ttl),
    {
        let mut response = Message::new();
        response.set_id(request.id());
        response.set_op_code(OpCode::Query);
        response.set_message_type(MessageType::Response);
        response.add_queries(clone_queries(request.queries()));
        proof {
            assert(response@ =~~= base_response_spec(request@));
        }
        let ghost base = base_response_spec(request@);
        let ghost qs = request@.queries;
        let n = request.queries().len();
        let mut i: usize = 0;
        while i < n
            invariant
                n == qs.len(),
                qs == request@.queries,
                base == base_response_spec(request@),
                0 <= i <= n,
                response@ == process_queries_spec(
                    self@,
                    store@,
                    qs.take(i as int),
                    base,
                    self.record_ttl,
                ),
            decreases n - i,
        {
            let q = &request.queries[i];
            proof {
                assert(q@ == qs[i as int]);
            }
            self.process_query(store, q, &mut response);
            proof {
                lemma_process_snoc(
                    self@,
                    store@,
                    qs.take(i as int),
                    qs[i as int],
                    base,
                    self.record_ttl,
                );
                assert(qs.take(i + 1 as int) =~= qs.take(i as int).push(qs[i as int]));
            }
            i = i + 1;
        }
        proof {
            assert(qs.take(n as int) =~= qs);
        }
        response
    }

    /// Dispatch one request: resolve plain queries, answer everything
    /// else `NotImp`; every request gets a response.
    pub fn handle_request(&self, store: &Store, request: &Message) -> (response: Message)
        ensures
            response@ == handle_spec(self@, store@, request@, self.record_ttl),
    {
        let is_plain_query = matches!(request.message_type(), MessageType::Query) && matches!(
            request.op_code(),
            OpCode::Query,
        );
        if is_plain_query {
            self.lookup(store, request)
        } else {
            let mut response = Message::error_msg(
                request.id(),
                request.op_code(),
                ResponseCode::NotImp,
            );
            response.add_queries(clone_queries(request.queries()));
            proof {
                assert(Seq::<QueryV>::empty() + request@.queries =~= request@.queries);
                assert(response@ =~~= handle_spec(self@, store@, request@, self.record_ttl));
            }
            response
        }
    }

    /// Walk the suffix chain of a name down to (but not including) the
    /// root, returning the deepest registered authority.
    fn find_auth(&self, name: &DomainName) -> (r: Option<&Authority>)
        ensures
            match r {
                Some(a) => find_auth_spec(self@, name@) == Some(a@),
                None => find_auth_spec(self@, name@) is None,
            },
    {
        let mut cur = name.clone();
        loop
            invariant
                find_auth_spec(self@, name@) == find_auth_spec(self@, cur@),
            decreases cur@.len(),
        {
            if let Some(j) = self.position_of(&cur) {
                return Some(&self.authorities[j].authority);
            }
            let next = cur.base_name();
            proof {
                lemma_base_name_len(cur@);
            }
            if next.is_root() {
                return None;
            }
            cur = next;
        }
    }
}

/// Every authority of the table keeps its local records at its apex.
pub open spec fn table_wf(table: Seq<AuthorityEntryV>) -> bool {
    forall|k: int| 0 <= k < table.len() ==> authority_local_wf((#[trigger] table[k]).authority)
}

proof fn lemma_table_find_wf(table: Seq<AuthorityEntryV>, name: Seq<char>)
    requires
        table_wf(table),
        table_find(table, name) is Some,
    ensures
        authority_local_wf(table_find(table, name)->Some_0),
    decreases table.len(),
{
    if table.len() > 0 && table[0].name != name {
        assert(forall|k: int|
            0 <= k < table.drop_first().len() ==> authority_local_wf(
                (#[trigger] table.drop_first()[k]).authority,
            ));
        lemma_table_find_wf(table.drop_first(), name);
    }
}

proof fn lemma_find_auth_wf(table: Seq<AuthorityEntryV>, name: Seq<char>)
    requires
        table_wf(table),
        find_auth_spec(table, name) is Some,
    ensures
        authority_local_wf(find_auth_spec(table, name)->Some_0),
    decreases name.len(),
{
    lemma_base_name_len(name);
    if table_find(table, name) is Some {
        lemma_table_find_wf(table, name);
    } else {
        lemma_find_auth_wf(table, base_name_of(name));
    }
}

proof fn lemma_process_preserves(
    table: Seq<AuthorityEntryV>,
    store: Seq<StoreEntryV>,
    qs: Seq<QueryV>,
    acc: MessageV,
    default_ttl: u32,
)
    ensures
        process_queries_spec(table, store, qs, acc, default_ttl).id == acc.id,
        process_queries_spec(table, store, qs, acc, default_ttl).queries == acc.queries,
        process_queries_spec(table, store, qs, acc, default_ttl).op_code == acc.op_code,
        process_queries_spec(table, store, qs, acc, default_ttl).message_type
            == acc.message_type,
    decreases qs.len(),
{
    if qs.len() > 0 {
        let acc2 = process_query_spec(table, store, qs[0], acc, default_ttl);
        assert(acc2.id == acc.id && acc2.queries == acc.queries && acc2.op_code == acc.op_code
            && acc2.message_type == acc.message_type);
        lemma_process_preserves(table, store, qs.drop_first(), acc2, default_ttl);
    }
}

/// Every response carries the request's id, echoes every question of
/// the request, and is marked as a response.
pub proof fn lemma_response_echoes_request(
    table: Seq<AuthorityEntryV>,
    store: Seq<StoreEntryV>,
    req: MessageV,
    default_ttl: u32,
)
    ensures
        handle_spec(table, store, req, default_ttl).id == req.id,
        handle_spec(table, store, req, default_ttl).queries == req.queries,
        handle_spec(table, store, req, default_ttl).message_type is Response,
{
    if req.message_type is Query && req.op_code is Query {
        lemma_process_preserves(table, store, req.queries, base_response_spec(req), default_ttl);
    }
}

/// A question under no configured authority is answered `NXDomain`, with
/// the answer and authority sections left empty.
pub proof fn lemma_no_authority_nxdomain(
    table: Seq<AuthorityEntryV>,
    store: Seq<StoreEntryV>,
    req: MessageV,
    q: QueryV,
    default_ttl: u32,
)
    requires
        req.message_type is Query,
        req.op_code is Query,
        req.queries == seq![q],
        find_auth_spec(table, q.name) is None,
    ensures
        handle_spec(table, store, req, default_ttl).response_code is NXDomain,
        handle_spec(table, store, req, default_ttl).answers.len() == 0,
        handle_spec(table, store, req, default_ttl).name_servers.len() == 0,
{
    let base = base_response_spec(req);
    assert(req.queries[0] == q);
    assert(req.queries.drop_first() =~= Seq::<QueryV>::empty());
    let one = process_query_spec(table, store, q, base, default_ttl);
    assert(process_queries_spec(table, store, req.queries, base, default_ttl)
        == process_queries_spec(table, store, req.queries.drop_first(), one, default_ttl));
}

/// A store answer is never empty: `Some` always carries records.
proof fn lemma_store_records_nonempty(
    a: AuthorityV,
    store: Seq<StoreEntryV>,
    q: QueryV,
    default_ttl: u32,
)
    requires
        store_records_spec(a, store, q, default_ttl) is Some,
    ensures
        (store_records_spec(a, store, q, default_ttl)->Some_0).len() > 0,
{
}

/// A positive answer is authoritative: when any record is returned for a
/// single question, the code is `NoError`, the authoritative bit is set,
/// and the zone's NS records (when it has any) fill the authority
/// section.
pub proof fn lemma_positive_answer_authoritative(
    table: Seq<AuthorityEntryV>,
    store: Seq<StoreEntryV>,
    req: MessageV,
    q: QueryV,
    a: AuthorityV,
    default_ttl: u32,
)
    requires
        req.message_type is Query,
        req.op_code is Query,
        req.queries == seq![q],
        find_auth_spec(table, q.name) == Some(a),
        handle_spec(table, store, req, default_ttl).answers.len() > 0,
    ensures
        handle_spec(table, store, req, default_ttl).authoritative,
        handle_spec(table, store, req, default_ttl).response_code is NoError,
        a.ns_records.len() > 0 ==> handle_spec(table, store, req, default_ttl).name_servers
            == a.ns_records,
        a.ns_records.len() == 0 ==> handle_spec(table, store, req, default_ttl).name_servers.len()
            == 0,
{
    let base = base_response_spec(req);
    assert(req.queries[0] == q);
    assert(req.queries.drop_first() =~= Seq::<QueryV>::empty());
    let one = process_query_spec(table, store, q, base, default_ttl);
    assert(process_queries_spec(table, store, req.queries, base, default_ttl)
        == process_queries_spec(table, store, req.queries.drop_first(), one, default_ttl));
    if store_records_spec(a, store, q, default_ttl) is Some {
        lemma_store_records_nonempty(a, store, q, default_ttl);
    }
    if a.ns_records.len() > 0 {
        assert(Seq::<RecordV>::empty() + a.ns_records =~= a.ns_records);
    } else {
        assert(Seq::<RecordV>::empty() + Seq::<RecordV>::empty() =~= Seq::<RecordV>::empty());
    }
}

/// A negative answer carries the zone's SOA records in the authority
/// section, and its code tells an unknown owner (`NXDomain`) from an
/// owner without records of the asked kind (`NoError`).
pub proof fn lemma_negative_answer_soa(
    table: Seq<AuthorityEntryV>,
    store: Seq<StoreEntryV>,
    req: MessageV,
    q: QueryV,
    a: AuthorityV,
    default_ttl: u32,
)
    requires
        req.message_type is Query,
        req.op_code is Query,
        req.queries == seq![q],
        find_auth_spec(table, q.name) == Some(a),
        handle_spec(table, store, req, default_ttl).answers.len() == 0,
    ensures
        !handle_spec(table, store, req, default_ttl).authoritative,
        handle_spec(table, store, req, default_ttl).name_servers == (if a.soa_records.len() > 0 {
            a.soa_records
        } else {
            Seq::<RecordV>::empty()
        }),
        handle_spec(table, store, req, default_ttl).response_code == (
        if search_spec(a, q) is NoName {
            ResponseCode::NXDomain
        } else {
            ResponseCode::NoError
        }),
{
    let base = base_response_spec(req);
    assert(req.queries[0] == q);
    assert(req.queries.drop_first() =~= Seq::<QueryV>::empty());
    let one = process_query_spec(table, store, q, base, default_ttl);
    assert(process_queries_spec(table, store, req.queries, base, default_ttl)
        == process_queries_spec(table, store, req.queries.drop_first(), one, default_ttl));
    if store_records_spec(a, store, q, default_ttl) is Some {
        lemma_store_records_nonempty(a, store, q, default_ttl);
    }
    if a.soa_records.len() > 0 {
        assert(Seq::<RecordV>::empty() + a.soa_records =~= a.soa_records);
    } else {
        assert(Seq::<RecordV>::empty() + Seq::<RecordV>::empty() =~= Seq::<RecordV>::empty());
    }
}

/// For a non-CNAME question, one store attempt serves the directly
/// requested records first and the CNAME hint records right after them,
/// and serves nothing only when both sets are empty.
pub proof fn lemma_cname_hint_order(
    a: AuthorityV,
    store: Seq<StoreEntryV>,
    client: Seq<char>,
    effective: Seq<char>,
    query_type: u16,
    default_ttl: u32,
    t: RecordType,
)
    requires
        rt_from_code(query_type) == Some(t),
        t != RecordType::CNAME,
        a.origin.len() > 0,
        from_query_spec(a.origin, effective) is Some,
    ensures
        ({
            let m = from_query_spec(a.origin, effective)->Some_0;
            let direct = match store_lookup(store, a.origin, m, t) {
                Some(sr) => expand_record(client, sr, default_ttl),
                None => Seq::<RecordV>::empty(),
            };
            let hint = match store_lookup(store, a.origin, m, RecordType::CNAME) {
                Some(sr) => expand_record(client, sr, default_ttl),
                None => Seq::<RecordV>::empty(),
            };
            store_attempt_spec(a, store, client, effective, query_type, default_ttl) == (if (
            direct + hint).len() > 0 {
                Some(direct + hint)
            } else {
                None
            })
        }),
{
}

/// When the store holds both the requested kind and a CNAME under the
/// effective name of a non-CNAME question, the attempt serves every
/// parseable requested-kind record first and every parseable CNAME
/// record after it, in that order.
pub proof fn lemma_cname_hint_both(
    a: AuthorityV,
    store: Seq<StoreEntryV>,
    client: Seq<char>,
    effective: Seq<char>,
    query_type: u16,
    default_ttl: u32,
    t: RecordType,
)
    requires
        rt_from_code(query_type) == Some(t),
        t != RecordType::CNAME,
        a.origin.len() > 0,
        from_query_spec(a.origin, effective) is Some,
        store_lookup(store, a.origin, from_query_spec(a.origin, effective)->Some_0, t) is Some,
        store_lookup(
            store,
            a.origin,
            from_query_spec(a.origin, effective)->Some_0,
            RecordType::CNAME,
        ) is Some,
    ensures
        ({
            let m = from_query_spec(a.origin, effective)->Some_0;
            let direct = expand_record(client, store_lookup(store, a.origin, m, t)->Some_0,
                default_ttl);
            let hint = expand_record(
                client,
                store_lookup(store, a.origin, m, RecordType::CNAME)->Some_0,
                default_ttl,
            );
            (direct + hint).len() > 0 ==> store_attempt_spec(
                a,
                store,
                client,
                effective,
                query_type,
                default_ttl,
            ) == Some(direct + hint)
        }),
{
}

/// Records found through the store are owned by the client's queried
/// name, whether the exact name or the wildcard owner was the lookup
/// key: the wildcard never shows as an owner name.
pub proof fn lemma_store_records_owner(
    a: AuthorityV,
    store: Seq<StoreEntryV>,
    q: QueryV,
    default_ttl: u32,
)
    requires
        store_records_spec(a, store, q, default_ttl) is Some,
    ensures
        forall|i: int|
            0 <= i < (store_records_spec(a, store, q, default_ttl)->Some_0).len() ==> (
            #[trigger] (store_records_spec(a, store, q, default_ttl)->Some_0)[i]).name == q.name,
{
    let exact = store_attempt_spec(a, store, q.name, q.name, q.query_type, default_ttl);
    if exact is Some {
        lemma_attempt_names(a, store, q.name, q.name, q.query_type, default_ttl);
    } else {
        if wildcard_of_spec(q.name) is Some {
            lemma_attempt_names(
                a,
                store,
                q.name,
                wildcard_of_spec(q.name)->Some_0,
                q.query_type,
                default_ttl,
            );
        }
    }
}

proof fn lemma_expand_names(client: Seq<char>, kind: RecordType, vals: Seq<Seq<char>>, ttl: u32)
    ensures
        forall|i: int|
            0 <= i < expand_values(client, kind, vals, ttl).len() ==> (#[trigger] expand_values(
                client,
                kind,
                vals,
                ttl,
            )[i]).name == client,
    decreases vals.len(),
{
    if vals.len() > 0 {
        lemma_expand_names(client, kind, vals.drop_first(), ttl);
    }
}

/// Wildcard substitution changes only which store key is consulted: the
/// owner name on every returned answer is the client's queried name.
pub proof fn lemma_answers_owned_by_query(
    table: Seq<AuthorityEntryV>,
    store: Seq<StoreEntryV>,
    req: MessageV,
    q: QueryV,
    default_ttl: u32,
)
    requires
        req.message_type is Query,
        req.op_code is Query,
        req.queries == seq![q],
        table_wf(table),
    ensures
        forall|i: int|
            0 <= i < handle_spec(table, store, req, default_ttl).answers.len() ==> (
            #[trigger] handle_spec(table, store, req, default_ttl).answers[i]).name == q.name,
{
    let base = base_response_spec(req);
    assert(req.queries[0] == q);
    assert(req.queries.drop_first() =~= Seq::<QueryV>::empty());
    let one = process_query_spec(table, store, q, base, default_ttl);
    assert(process_queries_spec(table, store, req.queries, base, default_ttl)
        == process_queries_spec(table, store, req.queries.drop_first(), one, default_ttl));
    if find_auth_spec(table, q.name) is Some {
        let a = find_auth_spec(table, q.name)->Some_0;
        lemma_find_auth_wf(table, q.name);
        let local = search_spec(a, q);
        if local is Records && (local->Records_0).len() > 0 {
            assert(q.name == a.origin);
            assert(forall|i: int|
                0 <= i < (local->Records_0).len() ==> (#[trigger] (local->Records_0)[i]).name
                    == q.name);
        } else if store_records_spec(a, store, q, default_ttl) is Some {
            let rs = store_records_spec(a, store, q, default_ttl)->Some_0;
            lemma_store_records_owner(a, store, q, default_ttl);
            assert(forall|i: int| 0 <= i < rs.len() ==> (#[trigger] rs[i]).name == q.name);
        }
    }
}

proof fn lemma_attempt_names(
    a: AuthorityV,
    store: Seq<StoreEntryV>,
    client: Seq<char>,
    effective: Seq<char>,
    query_type: u16,
    default_ttl: u32,
)
    requires
        store_attempt_spec(a, store, client, effective, query_type, default_ttl) is Some,
    ensures
        forall|i: int|
            0 <= i < (store_attempt_spec(a, store, client, effective, query_type, default_ttl)
                ->Some_0).len() ==> (#[trigger] (store_attempt_spec(
                a,
                store,
                client,
                effective,
                query_type,
                default_ttl,
            )->Some_0)[i]).name == client,
{
    let m = from_query_spec(a.origin, effective)->Some_0;
    let t = rt_from_code(query_type)->Some_0;
    match store_lookup(store, a.origin, m, t) {
        Some(sr) => {
            lemma_expand_names(
                client,
                sr.kind,
                sr.values,
                match sr.ttl {
                    Some(x) => x,
                    None => default_ttl,
                },
            );
        },
        None => {},
    }
    if t != RecordType::CNAME {
        match store_lookup(store, a.origin, m, RecordType::CNAME) {
            Some(sr) => {
                lemma_expand_names(
                    client,
                    sr.kind,
                    sr.values,
                    match sr.ttl {
                        Some(x) => x,
                        None => default_ttl,
                    },
                );
            },
            None => {},
        }
    }
}

} // verus!

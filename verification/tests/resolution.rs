//! End-to-end resolution scenarios over one configured zone.

use constellation_dns::handler::DNSHandler;
use constellation_dns::listen::{DNSListen, DnsConfig};
use constellation_dns::message::{Message, MessageType, OpCode, Query, ResponseCode};
use constellation_dns::name::DomainName;
use constellation_dns::rdata::RData;
use constellation_dns::record::{RecordName, RecordType, RecordValue, RecordValues};
use constellation_dns::record::{WIRE_TYPE_A, WIRE_TYPE_AAAA, WIRE_TYPE_MX, WIRE_TYPE_NS, WIRE_TYPE_TXT};
use constellation_dns::store::{Store, StoreRecord, ZoneName};

fn name(s: &str) -> DomainName {
    DomainName::parse(s).unwrap()
}

fn zone(s: &str) -> ZoneName {
    ZoneName::from_name(&name(s)).unwrap()
}

fn record_name(s: &str) -> RecordName {
    RecordName::from_str(s).unwrap()
}

fn values(items: &[&str]) -> RecordValues {
    let mut v = Vec::new();
    for item in items {
        v.push(RecordValue::new(String::from(*item)));
    }
    RecordValues::new(v)
}

fn config() -> DnsConfig {
    DnsConfig {
        soa_master: String::from("ns1.example.com."),
        soa_responsible: String::from("hostmaster.example.com."),
        soa_refresh: 10000,
        soa_retry: 2400,
        soa_expire: 604800,
        soa_ttl: 3600,
        record_ttl: 600,
        nameservers: vec![String::from("ns1.example.com.")],
    }
}

fn setup() -> (DNSHandler, Store) {
    let (apex, authority) = DNSListen::map_authority("example.com.", &config()).unwrap();
    let mut handler = DNSHandler::new(600);
    handler.upsert(apex, authority);
    let mut store = Store::new();
    store.insert(
        zone("example.com."),
        record_name("www.@"),
        StoreRecord::new(RecordType::A, values(&["1.2.3.4"]), None),
    );
    store.insert(
        zone("example.com."),
        record_name("*.@"),
        StoreRecord::new(RecordType::A, values(&["9.9.9.9"]), None),
    );
    store.insert(
        zone("example.com."),
        record_name("mail.@"),
        StoreRecord::new(RecordType::CNAME, values(&["host.example.com."]), None),
    );
    (handler, store)
}

fn one_question(qname: &str, qtype: u16) -> Message {
    let mut request = Message::new();
    request.set_id(42);
    request.add_queries(vec![Query::new(name(qname), qtype)]);
    request
}

#[test]
fn www_a_positive() {
    let (handler, store) = setup();
    let response = handler.handle_request(&store, &one_question("www.example.com.", WIRE_TYPE_A));
    assert_eq!(response.id(), 42);
    assert!(matches!(response.message_type(), MessageType::Response));
    assert!(matches!(response.response_code(), ResponseCode::NoError));
    assert!(response.authoritative());
    assert_eq!(response.answers().len(), 1);
    let answer = &response.answers()[0];
    assert_eq!(answer.name.to_str(), "www.example.com.");
    assert!(matches!(answer.rdata, RData::A(1, 2, 3, 4)));
    assert_eq!(response.name_servers().len(), 1);
    if let RData::NS(target) = &response.name_servers()[0].rdata {
        assert_eq!(target.to_str(), "ns1.example.com.");
    } else {
        panic!("expected an NS record in the authority section");
    }
}

#[test]
fn foo_a_wildcard_owner_is_client_name() {
    let (handler, store) = setup();
    let response = handler.handle_request(&store, &one_question("foo.example.com.", WIRE_TYPE_A));
    assert!(matches!(response.response_code(), ResponseCode::NoError));
    assert!(response.authoritative());
    assert_eq!(response.answers().len(), 1);
    let answer = &response.answers()[0];
    assert_eq!(answer.name.to_str(), "foo.example.com.");
    assert!(matches!(answer.rdata, RData::A(9, 9, 9, 9)));
}

#[test]
fn www_aaaa_no_records_negative_with_soa() {
    let (handler, store) = setup();
    let response =
        handler.handle_request(&store, &one_question("www.example.com.", WIRE_TYPE_AAAA));
    assert_eq!(response.answers().len(), 0);
    assert!(!response.authoritative());
    assert!(matches!(response.response_code(), ResponseCode::NXDomain));
    assert_eq!(response.name_servers().len(), 1);
    assert!(matches!(response.name_servers()[0].rdata, RData::SOA(_)));
}

#[test]
fn www_mx_no_records_negative_with_soa() {
    let (handler, store) = setup();
    let response = handler.handle_request(&store, &one_question("www.example.com.", WIRE_TYPE_MX));
    assert_eq!(response.answers().len(), 0);
    assert_eq!(response.name_servers().len(), 1);
    assert!(matches!(response.name_servers()[0].rdata, RData::SOA(_)));
    assert!(matches!(response.response_code(), ResponseCode::NXDomain));
}

#[test]
fn apex_mx_nodata_noerror_with_soa() {
    let (handler, store) = setup();
    let response = handler.handle_request(&store, &one_question("example.com.", WIRE_TYPE_MX));
    assert_eq!(response.answers().len(), 0);
    assert!(matches!(response.response_code(), ResponseCode::NoError));
    assert_eq!(response.name_servers().len(), 1);
    assert!(matches!(response.name_servers()[0].rdata, RData::SOA(_)));
}

#[test]
fn mail_a_returns_cname_hint() {
    let (handler, store) = setup();
    let response = handler.handle_request(&store, &one_question("mail.example.com.", WIRE_TYPE_A));
    assert!(matches!(response.response_code(), ResponseCode::NoError));
    assert!(response.authoritative());
    assert_eq!(response.answers().len(), 1);
    let answer = &response.answers()[0];
    assert_eq!(answer.name.to_str(), "mail.example.com.");
    if let RData::CNAME(target) = &answer.rdata {
        assert_eq!(target.to_str(), "host.example.com.");
    } else {
        panic!("expected the CNAME hint in the answer section");
    }
}

#[test]
fn unrelated_org_no_authority_nxdomain() {
    let (handler, store) = setup();
    let response = handler.handle_request(&store, &one_question("unrelated.org.", WIRE_TYPE_A));
    assert!(matches!(response.response_code(), ResponseCode::NXDomain));
    assert_eq!(response.answers().len(), 0);
    assert_eq!(response.name_servers().len(), 0);
}

#[test]
fn update_opcode_not_implemented() {
    let (handler, store) = setup();
    let mut request = one_question("www.example.com.", WIRE_TYPE_A);
    request.set_op_code(OpCode::Update);
    let response = handler.handle_request(&store, &request);
    assert!(matches!(response.response_code(), ResponseCode::NotImp));
    assert_eq!(response.id(), 42);
    assert_eq!(response.answers().len(), 0);
    assert_eq!(response.queries().len(), 1);
}

#[test]
fn response_as_request_not_implemented() {
    let (handler, store) = setup();
    let mut request = one_question("www.example.com.", WIRE_TYPE_A);
    request.set_message_type(MessageType::Response);
    let response = handler.handle_request(&store, &request);
    assert!(matches!(response.response_code(), ResponseCode::NotImp));
}

#[test]
fn response_echoes_id_and_questions() {
    let (handler, store) = setup();
    let request = one_question("www.example.com.", WIRE_TYPE_A);
    let response = handler.handle_request(&store, &request);
    assert_eq!(response.id(), 42);
    assert_eq!(response.queries().len(), 1);
    assert_eq!(response.queries()[0].name.to_str(), "www.example.com.");
    assert_eq!(response.queries()[0].query_type, WIRE_TYPE_A);
}

#[test]
fn apex_ns_served_from_local_records() {
    let (handler, store) = setup();
    let response = handler.handle_request(&store, &one_question("example.com.", WIRE_TYPE_NS));
    assert!(matches!(response.response_code(), ResponseCode::NoError));
    assert!(response.authoritative());
    assert_eq!(response.answers().len(), 1);
    assert!(matches!(response.answers()[0].rdata, RData::NS(_)));
}

#[test]
fn multi_question_code_reflects_last_query() {
    let (handler, store) = setup();
    let mut request = Message::new();
    request.set_id(7);
    request.add_queries(vec![
        Query::new(name("www.example.com."), WIRE_TYPE_A),
        Query::new(name("unrelated.org."), WIRE_TYPE_A),
    ]);
    let response = handler.handle_request(&store, &request);
    assert!(matches!(response.response_code(), ResponseCode::NXDomain));
    assert_eq!(response.answers().len(), 1);
    assert!(response.authoritative());
}

#[test]
fn single_label_query_has_no_wildcard_parent() {
    let (handler, store) = setup();
    let mut handler = handler;
    let (apex, authority) = DNSListen::map_authority("com.", &config()).unwrap();
    handler.upsert(apex, authority);
    let response = handler.handle_request(&store, &one_question("com.", WIRE_TYPE_A));
    assert_eq!(response.answers().len(), 0);
    assert!(matches!(response.response_code(), ResponseCode::NoError));
}

#[test]
fn upsert_replaces_existing_zone() {
    let (mut handler, store) = setup();
    let mut other = config();
    other.nameservers = vec![String::from("ns2.example.com.")];
    let (apex, authority) = DNSListen::map_authority("example.com.", &other).unwrap();
    handler.upsert(apex, authority);
    let response = handler.handle_request(&store, &one_question("www.example.com.", WIRE_TYPE_A));
    assert_eq!(response.name_servers().len(), 1);
    if let RData::NS(target) = &response.name_servers()[0].rdata {
        assert_eq!(target.to_str(), "ns2.example.com.");
    } else {
        panic!("expected the replaced NS record");
    }
}

#[test]
fn store_ttl_and_default_ttl() {
    let (handler, mut store) = setup();
    store.insert(
        zone("example.com."),
        record_name("fixed.@"),
        StoreRecord::new(RecordType::A, values(&["5.6.7.8"]), Some(99)),
    );
    let response =
        handler.handle_request(&store, &one_question("fixed.example.com.", WIRE_TYPE_A));
    assert_eq!(response.answers()[0].ttl, 99);
    let response =
        handler.handle_request(&store, &one_question("www.example.com.", WIRE_TYPE_A));
    assert_eq!(response.answers()[0].ttl, 600);
}

#[test]
fn invalid_store_value_is_skipped() {
    let (handler, mut store) = setup();
    store.insert(
        zone("example.com."),
        record_name("broken.@"),
        StoreRecord::new(RecordType::A, values(&["not-an-address", "4.3.2.1"]), None),
    );
    let response =
        handler.handle_request(&store, &one_question("broken.example.com.", WIRE_TYPE_A));
    assert_eq!(response.answers().len(), 1);
    assert!(matches!(response.answers()[0].rdata, RData::A(4, 3, 2, 1)));
}

#[test]
fn longest_suffix_authority_wins() {
    let (mut handler, mut store) = setup();
    let (apex, authority) = DNSListen::map_authority("sub.example.com.", &config()).unwrap();
    handler.upsert(apex, authority);
    store.insert(
        zone("sub.example.com."),
        record_name("www.@"),
        StoreRecord::new(RecordType::A, values(&["8.8.8.8"]), None),
    );
    let response =
        handler.handle_request(&store, &one_question("www.sub.example.com.", WIRE_TYPE_A));
    assert_eq!(response.answers().len(), 1);
    assert!(matches!(response.answers()[0].rdata, RData::A(8, 8, 8, 8)));
}

#[test]
fn unsupported_query_type_negative() {
    let (handler, store) = setup();
    let response = handler.handle_request(&store, &one_question("www.example.com.", 33));
    assert_eq!(response.answers().len(), 0);
    assert!(matches!(response.response_code(), ResponseCode::NXDomain));
}

#[test]
fn txt_answer_through_store() {
    let (handler, mut store) = setup();
    store.insert(
        zone("example.com."),
        record_name("note.@"),
        StoreRecord::new(RecordType::TXT, values(&["hello world"]), None),
    );
    let response =
        handler.handle_request(&store, &one_question("note.example.com.", WIRE_TYPE_TXT));
    assert_eq!(response.answers().len(), 1);
    if let RData::TXT(chunks) = &response.answers()[0].rdata {
        assert_eq!(chunks, &vec![String::from("hello world")]);
    } else {
        panic!("expected a TXT answer");
    }
}

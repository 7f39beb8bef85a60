//! Startup mapping from configuration to per-zone authorities. Socket
//! handling lives outside the library; this is the part that decides
//! what each authority holds.

use vstd::prelude::*;

use crate::authority::Authority;
use crate::message::{Record, RecordV};
use crate::name::{parse_name_spec, DomainName};
use crate::rdata::{RData, RDataV, SoaData, SoaDataV};

verus! {

/// The SOA serial used for every zone built at startup.
pub const SERIAL_DEFAULT: u32 = 1;

/// The configuration an authority is built from.
#[derive(Debug)]
pub struct DnsConfig {
    pub soa_master: String,
    pub soa_responsible: String,
    pub soa_refresh: u32,
    pub soa_retry: u32,
    pub soa_expire: u32,
    pub soa_ttl: u32,
    pub record_ttl: u32,
    pub nameservers: Vec<String>,
}

/// Builds the one listener value the server runs.
pub struct DNSListenBuilder;

/// The listener: socket handling lives with the embedder; the zone
/// mapping below is what it consumes.
pub struct DNSListen;

impl DNSListenBuilder {
    /// A fresh listener.
    pub fn new() -> DNSListen {
        DNSListen {  }
    }
}

/// The SOA record a configuration denotes for a zone apex.
pub open spec fn config_soa_record(name: Seq<char>, config: DnsConfig) -> RecordV {
    RecordV {
        name,
        ttl: config.record_ttl,
        rdata: RDataV::SOA(
            SoaDataV {
                mname: parse_name_spec(config.soa_master@)->Some_0,
                rname: parse_name_spec(config.soa_responsible@)->Some_0,
                serial: SERIAL_DEFAULT,
                refresh: config.soa_refresh,
                retry: config.soa_retry,
                expire: config.soa_expire,
                minimum: config.soa_ttl,
            },
        ),
    }
}

/// The NS record a configuration denotes for one nameserver.
pub open spec fn config_ns_record(name: Seq<char>, config: DnsConfig, i: int) -> RecordV {
    RecordV {
        name,
        ttl: config.record_ttl,
        rdata: RDataV::NS(parse_name_spec(config.nameservers@[i]@)->Some_0),
    }
}

impl DNSListen {
    /// Build the authority for one configured zone: the apex SOA record
    /// from the configured fields with serial defaulting to one, and one
    /// NS record per configured nameserver, order kept. Any unparseable
    /// name is a fatal misconfiguration.
    pub fn map_authority(zone_name: &str, config: &DnsConfig) -> (r: Result<
        (DomainName, Authority),
        (),
    >)
        ensures
            match r {
                Ok(p) => parse_name_spec(zone_name@) == Some(p.0@) && p.1@.origin == p.0@
                    && parse_name_spec(config.soa_master@) is Some && parse_name_spec(
                    config.soa_responsible@,
                ) is Some && p.1@.soa_records == seq![config_soa_record(p.0@, *config)]
                    && p.1@.ns_records.len() == config.nameservers@.len() && (forall|i: int|
                    0 <= i < config.nameservers@.len() ==> p.1@.ns_records[i] == config_ns_record(
                        p.0@,
                        *config,
                        i,
                    )) && p.1.wf(),
                Err(_) => parse_name_spec(zone_name@) is None || parse_name_spec(
                    config.soa_master@,
                ) is None || parse_name_spec(config.soa_responsible@) is None || exists|i: int|
                    0 <= i < config.nameservers@.len() && parse_name_spec(
                        (#[trigger] config.nameservers@[i])@,
                    ) is None,
            },
    {
        let name = match DomainName::parse(zone_name) {
            Some(n) => n,
            None => {
                return Err(());
            },
        };
        let master = match DomainName::parse(config.soa_master.as_str()) {
            Some(n) => n,
            None => {
                return Err(());
            },
        };
        let responsible = match DomainName::parse(config.soa_responsible.as_str()) {
            Some(n) => n,
            None => {
                return Err(());
            },
        };
        let soa = Record::new(
            name.clone(),
            config.record_ttl,
            RData::SOA(
                SoaData {
                    mname: master,
                    rname: responsible,
                    serial: SERIAL_DEFAULT,
                    refresh: config.soa_refresh,
                    retry: config.soa_retry,
                    expire: config.soa_expire,
                    minimum: config.soa_ttl,
                },
            ),
        );
        let mut soa_records: Vec<Record> = Vec::new();
        soa_records.push(soa);
        let mut ns_records: Vec<Record> = Vec::new();
        let mut i: usize = 0;
        while i < config.nameservers.len()
            invariant
                0 <= i <= config.nameservers@.len(),
                name@ == parse_name_spec(zone_name@)->Some_0,
                parse_name_spec(zone_name@) is Some,
                ns_records@.len() == i,
                forall|j: int|
                    0 <= j < i ==> parse_name_spec((#[trigger] config.nameservers@[j])@) is Some,
                forall|j: int|
                    0 <= j < i ==> (#[trigger] ns_records@[j])@ == config_ns_record(
                        name@,
                        *config,
                        j,
                    ),
            decreases config.nameservers@.len() - i,
        {
            let target = match DomainName::parse(config.nameservers[i].as_str()) {
                Some(n) => n,
                None => {
                    return Err(());
                },
            };
            ns_records.push(Record::new(name.clone(), config.record_ttl, RData::NS(target)));
            i = i + 1;
        }
        let origin = name.clone();
        let authority = Authority::new(origin, soa_records, ns_records);
        proof {
            assert(authority@.soa_records =~~= seq![config_soa_record(name@, *config)]);
            assert(forall|j: int|
                0 <= j < config.nameservers@.len() ==> authority@.ns_records[j] == config_ns_record(
                    name@,
                    *config,
                    j,
                ));
        }
        Ok((name, authority))
    }
}

} // verus!

//! Record model: kinds, names, and value parsing.

use constellation_dns::name::DomainName;
use constellation_dns::rdata::RData;
use constellation_dns::record::{
    CountryCode, RecordBlackhole, RecordName, RecordType, RecordValue,
};
use constellation_dns::record::{
    WIRE_TYPE_A, WIRE_TYPE_AAAA, WIRE_TYPE_CNAME, WIRE_TYPE_MX, WIRE_TYPE_SOA, WIRE_TYPE_TXT,
};

#[test]
fn record_type_text_round_trip() {
    for t in RecordType::list_choices() {
        let text = t.to_str();
        assert_eq!(RecordType::from_str(text), Some(t));
    }
    assert_eq!(RecordType::from_str("srv"), None);
    assert_eq!(RecordType::from_str("A"), None);
}

#[test]
fn record_type_wire_round_trip() {
    for t in RecordType::list_choices() {
        let code = t.to_wire().unwrap();
        assert_eq!(RecordType::from_wire(code), Ok(t));
    }
    assert_eq!(RecordType::from_wire(WIRE_TYPE_A).unwrap(), RecordType::A);
    assert_eq!(RecordType::from_wire(WIRE_TYPE_AAAA).unwrap(), RecordType::AAAA);
    assert_eq!(RecordType::from_wire(WIRE_TYPE_CNAME).unwrap(), RecordType::CNAME);
    assert_eq!(RecordType::from_wire(WIRE_TYPE_MX).unwrap(), RecordType::MX);
    assert_eq!(RecordType::from_wire(WIRE_TYPE_TXT).unwrap(), RecordType::TXT);
    assert!(RecordType::from_wire(WIRE_TYPE_SOA).is_err());
    assert!(RecordType::from_wire(999).is_err());
}

#[test]
fn record_name_grammar() {
    assert!(RecordName::validate("@"));
    assert!(RecordName::validate("*.@"));
    assert!(RecordName::validate("www.@"));
    assert!(RecordName::validate("a.b.@"));
    assert!(RecordName::validate("*.www.@"));
    assert!(!RecordName::validate(""));
    assert!(!RecordName::validate("www"));
    assert!(!RecordName::validate("www@"));
    assert!(!RecordName::validate(".@"));
    assert!(!RecordName::validate("*@"));
    assert!(!RecordName::validate("*.a@"));
    assert!(!RecordName::validate("a*.@"));
    assert!(!RecordName::validate("a/b.@"));
    assert!(!RecordName::validate("a:b.@"));
    assert!(!RecordName::validate("a&b.@"));
}

#[test]
fn record_name_parse_round_trip() {
    for text in ["@", "*.@", "www.@", "a.b.@", "*.deep.sub.@"] {
        let n = RecordName::from_str(text).unwrap();
        assert_eq!(n.to_str(), text);
        assert_eq!(RecordName::from_str(n.to_str()), Some(n));
    }
}

#[test]
fn record_name_folds_case() {
    let n = RecordName::from_str("WWW.@").unwrap();
    assert_eq!(n.to_str(), "www.@");
}

#[test]
fn record_name_subdomain() {
    assert_eq!(RecordName::from_str("www.@").unwrap().to_subdomain(), "www.");
    assert_eq!(RecordName::from_str("@").unwrap().to_subdomain(), "");
}

#[test]
fn record_name_from_query_strips_zone() {
    let zone = DomainName::parse("example.com.").unwrap();
    let www = DomainName::parse("www.example.com.").unwrap();
    let apex = DomainName::parse("example.com.").unwrap();
    let wild = DomainName::parse("*.example.com.").unwrap();
    assert_eq!(RecordName::from_query(&zone, &www).unwrap().to_str(), "www.@");
    assert_eq!(RecordName::from_query(&zone, &apex).unwrap().to_str(), "@");
    assert_eq!(RecordName::from_query(&zone, &wild).unwrap().to_str(), "*.@");
}

#[test]
fn domain_name_parse_and_shape() {
    let n = DomainName::parse("WWW.Example.COM").unwrap();
    assert_eq!(n.to_str(), "www.example.com.");
    assert_eq!(n.base_name().to_str(), "example.com.");
    assert_eq!(n.base_name().base_name().to_str(), "com.");
    assert!(n.base_name().base_name().base_name().is_root());
    assert!(DomainName::parse("").is_none());
    assert!(DomainName::parse("a..b").is_none());
    assert!(DomainName::parse(".a").is_none());
    assert!(DomainName::parse("a b").is_none());
}

#[test]
fn domain_name_wildcard() {
    let n = DomainName::parse("foo.example.com.").unwrap();
    assert_eq!(n.wildcard().unwrap().to_str(), "*.example.com.");
    let single = DomainName::parse("com.").unwrap();
    assert!(single.wildcard().is_none());
    let already = DomainName::parse("*.example.com.").unwrap();
    assert!(already.wildcard().is_none());
}

#[test]
fn a_value_parsing() {
    let v = RecordValue::new(String::from("1.2.3.4"));
    assert!(matches!(v.to_wire(&RecordType::A), Ok(RData::A(1, 2, 3, 4))));
    for bad in ["1.2.3", "1.2.3.4.5", "1.2.3.256", "01.2.3.4", "a.b.c.d", ""] {
        let v = RecordValue::new(String::from(bad));
        assert!(v.to_wire(&RecordType::A).is_err());
    }
}

#[test]
fn aaaa_value_parsing() {
    let full = RecordValue::new(String::from("2001:db8:0:0:0:0:0:1"));
    assert!(matches!(
        full.to_wire(&RecordType::AAAA),
        Ok(RData::AAAA(0x2001, 0xdb8, 0, 0, 0, 0, 0, 1))
    ));
    let compressed = RecordValue::new(String::from("2001:db8::1"));
    assert!(matches!(
        compressed.to_wire(&RecordType::AAAA),
        Ok(RData::AAAA(0x2001, 0xdb8, 0, 0, 0, 0, 0, 1))
    ));
    let loopback = RecordValue::new(String::from("::1"));
    assert!(matches!(
        loopback.to_wire(&RecordType::AAAA),
        Ok(RData::AAAA(0, 0, 0, 0, 0, 0, 0, 1))
    ));
    let unspecified = RecordValue::new(String::from("::"));
    assert!(matches!(
        unspecified.to_wire(&RecordType::AAAA),
        Ok(RData::AAAA(0, 0, 0, 0, 0, 0, 0, 0))
    ));
    let trailing = RecordValue::new(String::from("fe80::"));
    assert!(matches!(
        trailing.to_wire(&RecordType::AAAA),
        Ok(RData::AAAA(0xfe80, 0, 0, 0, 0, 0, 0, 0))
    ));
    for bad in ["", ":::1", "1:2:3", "g::1", "1:2:3:4:5:6:7:8:9", "1::2::3", ":1:2:3:4:5:6:7"] {
        let v = RecordValue::new(String::from(bad));
        assert!(v.to_wire(&RecordType::AAAA).is_err());
    }
}

#[test]
fn cname_and_ptr_value_parsing() {
    let v = RecordValue::new(String::from("host.example.com."));
    if let Ok(RData::CNAME(n)) = v.to_wire(&RecordType::CNAME) {
        assert_eq!(n.to_str(), "host.example.com.");
    } else {
        panic!("expected a CNAME");
    }
    let p = RecordValue::new(String::from("4.3.2.1.in-addr.arpa."));
    if let Ok(RData::PTR(n)) = p.to_wire(&RecordType::PTR) {
        assert_eq!(n.to_str(), "4.3.2.1.in-addr.arpa.");
    } else {
        panic!("expected a PTR");
    }
    assert!(RecordValue::new(String::new()).to_wire(&RecordType::CNAME).is_err());
}

#[test]
fn mx_value_parsing() {
    let v = RecordValue::new(String::from("10 mail.example.com."));
    if let Ok(RData::MX(priority, exchange)) = v.to_wire(&RecordType::MX) {
        assert_eq!(priority, 10);
        assert_eq!(exchange.to_str(), "mail.example.com.");
    } else {
        panic!("expected an MX");
    }
    assert!(RecordValue::new(String::from("10")).to_wire(&RecordType::MX).is_err());
    assert!(RecordValue::new(String::from("")).to_wire(&RecordType::MX).is_err());
    assert!(RecordValue::new(String::from("x mail.example.com.")).to_wire(&RecordType::MX).is_err());
    assert!(RecordValue::new(String::from("70000 mail.example.com."))
        .to_wire(&RecordType::MX)
        .is_err());
}

#[test]
fn txt_value_chunking() {
    let short = RecordValue::new(String::from("hello"));
    if let Ok(RData::TXT(chunks)) = short.to_wire(&RecordType::TXT) {
        assert_eq!(chunks, vec![String::from("hello")]);
    } else {
        panic!("expected a TXT");
    }
    let mut long = String::new();
    for i in 0..300 {
        long.push((b'a' + (i % 26) as u8) as char);
    }
    let v = RecordValue::new(long.clone());
    if let Ok(RData::TXT(chunks)) = v.to_wire(&RecordType::TXT) {
        assert_eq!(chunks.len(), 2);
        assert_eq!(chunks[0].len(), 255);
        assert_eq!(chunks[1].len(), 45);
        let mut joined = String::new();
        joined.push_str(&chunks[0]);
        joined.push_str(&chunks[1]);
        assert_eq!(joined, long);
    } else {
        panic!("expected a TXT");
    }
    assert!(RecordValue::new(String::new()).to_wire(&RecordType::TXT).is_err());
}

#[test]
fn blackhole_membership() {
    let fr = CountryCode { first: b'f', second: b'r' };
    let de = CountryCode { first: b'd', second: b'e' };
    let empty = RecordBlackhole::new(Vec::new());
    assert!(!empty.has_items());
    assert!(!empty.has_country(&fr));
    let one = RecordBlackhole::new(vec![fr]);
    assert!(one.has_items());
    assert!(one.has_country(&fr));
    assert!(!one.has_country(&de));
}

#[test]
fn mx_priority_allows_leading_zeros_and_plus() {
    let v = RecordValue::new(String::from("007 mail.example.com."));
    if let Ok(RData::MX(priority, _)) = v.to_wire(&RecordType::MX) {
        assert_eq!(priority, 7);
    } else {
        panic!("expected an MX");
    }
    let v = RecordValue::new(String::from("+12 mail.example.com."));
    if let Ok(RData::MX(priority, _)) = v.to_wire(&RecordType::MX) {
        assert_eq!(priority, 12);
    } else {
        panic!("expected an MX");
    }
}

#[test]
fn mx_ignores_extra_words() {
    let v = RecordValue::new(String::from("10 mail.example.com. extra words"));
    if let Ok(RData::MX(priority, exchange)) = v.to_wire(&RecordType::MX) {
        assert_eq!(priority, 10);
        assert_eq!(exchange.to_str(), "mail.example.com.");
    } else {
        panic!("expected an MX");
    }
}

#[test]
fn txt_exact_boundary_is_one_chunk() {
    let payload: String = std::iter::repeat('x').take(255).collect();
    let v = RecordValue::new(payload.clone());
    if let Ok(RData::TXT(chunks)) = v.to_wire(&RecordType::TXT) {
        assert_eq!(chunks, vec![payload]);
    } else {
        panic!("expected a TXT");
    }
}

#[test]
fn aaaa_embedded_ipv4_parsing() {
    let mapped = RecordValue::new(String::from("::ffff:1.2.3.4"));
    assert!(matches!(
        mapped.to_wire(&RecordType::AAAA),
        Ok(RData::AAAA(0, 0, 0, 0, 0, 0xffff, 0x0102, 0x0304))
    ));
    let bare = RecordValue::new(String::from("::1.2.3.4"));
    assert!(matches!(
        bare.to_wire(&RecordType::AAAA),
        Ok(RData::AAAA(0, 0, 0, 0, 0, 0, 0x0102, 0x0304))
    ));
    let full = RecordValue::new(String::from("1:2:3:4:5:6:1.2.3.4"));
    assert!(matches!(
        full.to_wire(&RecordType::AAAA),
        Ok(RData::AAAA(1, 2, 3, 4, 5, 6, 0x0102, 0x0304))
    ));
    let middle = RecordValue::new(String::from("64:ff9b::1.2.3.4"));
    assert!(matches!(
        middle.to_wire(&RecordType::AAAA),
        Ok(RData::AAAA(0x64, 0xff9b, 0, 0, 0, 0, 0x0102, 0x0304))
    ));
    for bad in ["1.2.3.4", "::1.2.3", "1:2:3:4:5:6:7:1.2.3.4", "1.2.3.4::"] {
        let v = RecordValue::new(String::from(bad));
        assert!(v.to_wire(&RecordType::AAAA).is_err());
    }
}

#[test]
fn txt_non_ascii_value_is_served() {
    let mut payload = String::new();
    payload.push('\u{e9}');
    let v = RecordValue::new(payload.clone());
    if let Ok(RData::TXT(chunks)) = v.to_wire(&RecordType::TXT) {
        assert_eq!(chunks, vec![payload]);
    } else {
        panic!("expected a TXT");
    }
}

#[test]
fn txt_chunks_split_at_character_boundaries() {
    let mut payload = String::new();
    for _ in 0..254 {
        payload.push('a');
    }
    payload.push('\u{e9}');
    payload.push('b');
    let v = RecordValue::new(payload.clone());
    if let Ok(RData::TXT(chunks)) = v.to_wire(&RecordType::TXT) {
        assert_eq!(chunks.len(), 2);
        assert_eq!(chunks[0].len(), 254);
        let mut second = String::new();
        second.push('\u{e9}');
        second.push('b');
        assert_eq!(chunks[1], second);
        let joined = format!("{}{}", chunks[0], chunks[1]);
        assert_eq!(joined, payload);
    } else {
        panic!("expected a TXT");
    }
}

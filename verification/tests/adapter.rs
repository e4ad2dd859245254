//! The authority adapter: configuration, the fixed contract answers, and
//! the search delegation.

use dns_gateway::authority::{validate_endpoint, HttpAuthority, Query, ZoneType};
use dns_gateway::http::{serial_of_millis, LookupStep};
use dns_gateway::name::DnsName;
use dns_gateway::records::{ConfigError, LookupError, RecordType};

#[test]
fn authority_construction() {
    let a = HttpAuthority::new("example.com.", "http://backend/path/").unwrap();
    assert_eq!(a.origin().labels, vec!["example".to_string(), "com".to_string()]);
    assert_eq!(a.endpoint, "http://backend/path/");

    assert_eq!(
        HttpAuthority::new("not a name", "http://backend/").unwrap_err(),
        ConfigError::InvalidOrigin
    );
    assert_eq!(
        HttpAuthority::new("example.com.", "backend").unwrap_err(),
        ConfigError::InvalidEndpoint
    );
}

#[test]
fn endpoint_validation() {
    assert!(validate_endpoint("http://backend"));
    assert!(validate_endpoint("https://backend:8080/path/"));
    assert!(!validate_endpoint("backend"));
    assert!(!validate_endpoint("ftp://backend"));
    assert!(!validate_endpoint("http://"));
    assert!(!validate_endpoint("http:///path"));
    assert!(!validate_endpoint("http://backend/a path"));
    assert!(!validate_endpoint("http://backend/?q=1"));
    assert!(!validate_endpoint("http://backend/#frag"));
}

#[test]
fn fixed_contract_answers() {
    let mut a = HttpAuthority::new("example.com.", "http://backend/").unwrap();
    assert_eq!(a.zone_type(), ZoneType::Primary);
    assert!(!a.is_axfr_allowed());
    assert_eq!(a.update().unwrap_err(), LookupError::NotImplemented);
    assert!(a.get_nsec_records(&DnsName::parse("example.com").unwrap()).is_empty());
    assert_eq!(a.add_update_auth_key().unwrap_err(), LookupError::NotImplemented);
    assert_eq!(a.add_zone_signing_key().unwrap_err(), LookupError::NotImplemented);
    assert_eq!(a.secure_zone().unwrap_err(), LookupError::NotImplemented);
}

#[test]
fn search_delegates_to_lookup() {
    let a = HttpAuthority::new("example.com.", "http://backend/path/").unwrap();
    let query = Query {
        name: DnsName::parse("foo.example.com").unwrap(),
        record_type: RecordType::A,
    };
    match a.search(&query, 1) {
        LookupStep::Fetch { url, .. } => {
            assert_eq!(url, "http://backend/path/com/example/foo/A/");
        },
        _ => panic!("expected a backend fetch"),
    }

    let soa_query = Query {
        name: DnsName::parse("example.com").unwrap(),
        record_type: RecordType::Soa,
    };
    match a.search(&soa_query, 42) {
        LookupStep::Answered(rs) => {
            assert_eq!(rs.record_type, RecordType::Soa);
            assert_eq!(rs.serial, 42);
        },
        _ => panic!("expected a local answer"),
    }
}

#[test]
fn authority_lookup_uses_configuration() {
    let a = HttpAuthority::new("example.com.", "http://backend/path").unwrap();
    let name = DnsName::parse("example.com").unwrap();
    match a.lookup(&name, RecordType::Txt, 5) {
        LookupStep::Fetch { url, .. } => {
            assert_eq!(url, "http://backend/path/com/example/TXT/");
        },
        _ => panic!("expected a backend fetch"),
    }
    match a.lookup(&name, RecordType::Aaaa, 5) {
        LookupStep::Refused(e) => assert_eq!(e, LookupError::NotImplemented),
        _ => panic!("expected a refusal"),
    }
}

#[test]
fn serial_truncates_to_32_bits() {
    assert_eq!(serial_of_millis(0), 0);
    assert_eq!(serial_of_millis(123456), 123456);
    assert_eq!(serial_of_millis(0x1_0000_0005), 5);
    assert_eq!(serial_of_millis(u64::MAX), u32::MAX);
}

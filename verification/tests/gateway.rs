//! The gateway behaviour: URL building, record mapping, and the full
//! lookup pipeline on a simulated backend exchange.

use dns_gateway::http::{lookup, lookup_finish, map_record, map_records, LookupStep};
use dns_gateway::ipv4::Ipv4Address;
use dns_gateway::name::DnsName;
use dns_gateway::records::{BackendRecordType, LookupError, RData, RecordType};
use dns_gateway::url::build_request_url;

fn name(s: &str) -> DnsName {
    DnsName::parse(s).unwrap()
}

#[test]
fn test_build_request_url() {
    assert_eq!(
        build_request_url("http://endpoint/", &name("example.com"), BackendRecordType::A),
        "http://endpoint/com/example/A/"
    );
    assert_eq!(
        build_request_url("http://endpoint", &name("example.com"), BackendRecordType::A),
        "http://endpoint/com/example/A/"
    );
    assert_eq!(
        build_request_url("http://endpoint/path/", &name("example.com"), BackendRecordType::A),
        "http://endpoint/path/com/example/A/"
    );
    assert_eq!(
        build_request_url("http://endpoint/path", &name("example.com"), BackendRecordType::A),
        "http://endpoint/path/com/example/A/"
    );
}

#[test]
fn test_map_record() {
    assert_eq!(
        map_record(BackendRecordType::A, "192.168.0.1").unwrap(),
        RData::A(Ipv4Address { a: 192, b: 168, c: 0, d: 1 })
    );
    assert_eq!(
        map_record(BackendRecordType::Txt, "abc").unwrap(),
        RData::Txt("abc".to_string())
    );
    assert_eq!(
        map_record(BackendRecordType::Ns, "example.com").unwrap(),
        RData::Ns(name("example.com"))
    );
}

#[test]
fn test_lookup() {
    // The backend serves GET /path/com/example/A/ with a JSON body of two
    // addresses; the pipeline is the URL from `lookup` and the record set
    // from `lookup_finish`.
    let origin = name("example.com");
    let qname = name("example.com");
    let serial = 12345;
    let step = lookup("http://backend/path/", &origin, &qname, RecordType::A, serial);
    let (url, backend_type) = match step {
        LookupStep::Fetch { url, backend_type } => (url, backend_type),
        _ => panic!("expected a backend fetch"),
    };
    assert_eq!(url, "http://backend/path/com/example/A/");
    assert_eq!(backend_type, BackendRecordType::A);

    let record_set = lookup_finish(
        &qname,
        backend_type,
        serial,
        200,
        Some(r#"["192.168.0.1", "192.168.0.2"]"#),
    )
    .unwrap();

    assert_eq!(record_set.name, name("example.com"));
    assert_eq!(record_set.record_type, RecordType::A);
    assert_eq!(record_set.ttl, 60);
    assert_eq!(record_set.serial, serial);
    assert_eq!(record_set.records.len(), 2);

    let record = &record_set.records[0];
    assert_eq!(record.name, name("example.com"));
    assert_eq!(record.record_type, RecordType::A);
    assert_eq!(record.ttl, 60);
    assert_eq!(record.rdata, RData::A(Ipv4Address { a: 192, b: 168, c: 0, d: 1 }));

    let record = &record_set.records[1];
    assert_eq!(record.name, name("example.com"));
    assert_eq!(record.record_type, RecordType::A);
    assert_eq!(record.ttl, 60);
    assert_eq!(record.rdata, RData::A(Ipv4Address { a: 192, b: 168, c: 0, d: 2 }));
}

#[test]
fn lookup_soa_is_answered_locally() {
    // An SOA query never reaches the backend: the step is already the
    // answer, with the synthesized record at the origin.
    let origin = name("example.com.");
    let qname = name("foo.example.com");
    let serial = 777;
    let step = lookup("http://backend/path/", &origin, &qname, RecordType::Soa, serial);
    let rs = match step {
        LookupStep::Answered(rs) => rs,
        _ => panic!("expected a local answer"),
    };
    assert_eq!(rs.name, name("example.com"));
    assert_eq!(rs.record_type, RecordType::Soa);
    assert_eq!(rs.ttl, 60);
    assert_eq!(rs.serial, serial);
    assert_eq!(rs.records.len(), 1);
    let record = &rs.records[0];
    assert_eq!(record.name, name("example.com"));
    assert_eq!(record.record_type, RecordType::Soa);
    assert_eq!(record.ttl, 60);
    match &record.rdata {
        RData::Soa(soa) => {
            assert_eq!(soa.mname, name("ns.example.com"));
            assert_eq!(soa.rname, name("hostmaster.example.com"));
            assert_eq!(soa.serial, serial);
            assert_eq!(soa.refresh, 86400);
            assert_eq!(soa.retry, 7200);
            assert_eq!(soa.expire, 3600000);
            assert_eq!(soa.minimum, 15);
        },
        _ => panic!("expected SOA data"),
    }
}

#[test]
fn lookup_unsupported_type_is_refused() {
    // An MX query is refused with the signal distinct from a backend
    // failure, before any URL is built.
    let origin = name("example.com.");
    let qname = name("example.com");
    let step = lookup("http://backend/", &origin, &qname, RecordType::Mx, 1);
    match step {
        LookupStep::Refused(e) => {
            assert_eq!(e, LookupError::NotImplemented);
            assert_ne!(e, LookupError::ServerFailure);
        },
        _ => panic!("expected a refusal"),
    }
}

#[test]
fn backend_http_failure_is_server_failure() {
    // HTTP 500 from the backend: a server failure, no record set.
    let qname = name("example.com");
    let r = lookup_finish(&qname, BackendRecordType::A, 1, 500, Some("irrelevant body"));
    assert_eq!(r.unwrap_err(), LookupError::ServerFailure);
}

#[test]
fn malformed_value_fails_whole_lookup() {
    // One bogus address fails the lookup; no partial record set leaks.
    let qname = name("example.com");
    let r = lookup_finish(&qname, BackendRecordType::A, 1, 200, Some(r#"["not-an-ip"]"#));
    assert_eq!(r.unwrap_err(), LookupError::ServerFailure);

    let r = lookup_finish(
        &qname,
        BackendRecordType::A,
        1,
        200,
        Some(r#"["192.168.0.1", "not-an-ip"]"#),
    );
    assert_eq!(r.unwrap_err(), LookupError::ServerFailure);
}

#[test]
fn malformed_body_is_server_failure() {
    let qname = name("example.com");
    let r = lookup_finish(&qname, BackendRecordType::A, 1, 200, Some("not json at all"));
    assert_eq!(r.unwrap_err(), LookupError::ServerFailure);
    let r = lookup_finish(&qname, BackendRecordType::A, 1, 200, Some(r#"{"a": "b"}"#));
    assert_eq!(r.unwrap_err(), LookupError::ServerFailure);
    let r = lookup_finish(&qname, BackendRecordType::A, 1, 200, None);
    assert_eq!(r.unwrap_err(), LookupError::ServerFailure);
}

#[test]
fn distinct_queries_build_distinct_urls() {
    // For a fixed endpoint the URL pins down the name and the type: no
    // two queries collide, even when labels shift across segments.
    let e = "http://backend/";
    assert_ne!(
        build_request_url(e, &name("example.com"), BackendRecordType::A),
        build_request_url(e, &name("example.org"), BackendRecordType::A)
    );
    assert_ne!(
        build_request_url(e, &name("example.com"), BackendRecordType::A),
        build_request_url(e, &name("example.com"), BackendRecordType::Txt)
    );
    assert_ne!(
        build_request_url(e, &name("a.bc"), BackendRecordType::A),
        build_request_url(e, &name("ab.c"), BackendRecordType::A)
    );
}

#[test]
fn mapper_preserves_order() {
    // Mapping ["1.2.3.4","5.6.7.8"] as A keeps exactly that order.
    let values = vec!["1.2.3.4".to_string(), "5.6.7.8".to_string()];
    let rds = map_records(BackendRecordType::A, &values).unwrap();
    assert_eq!(rds.len(), 2);
    assert_eq!(rds[0], RData::A(Ipv4Address { a: 1, b: 2, c: 3, d: 4 }));
    assert_eq!(rds[1], RData::A(Ipv4Address { a: 5, b: 6, c: 7, d: 8 }));
}

#[test]
fn mapper_rejects_whole_batch() {
    let values = vec!["not-an-ip".to_string()];
    assert!(map_records(BackendRecordType::A, &values).is_none());
    let values = vec!["1.2.3.4".to_string(), "bad".to_string()];
    assert!(map_records(BackendRecordType::A, &values).is_none());
}

#[test]
fn mapper_decodes_txt_and_ns() {
    let values = vec!["anything at all".to_string()];
    let rds = map_records(BackendRecordType::Txt, &values).unwrap();
    assert_eq!(rds[0], RData::Txt("anything at all".to_string()));

    let values = vec!["ns1.example.com".to_string()];
    let rds = map_records(BackendRecordType::Ns, &values).unwrap();
    assert_eq!(rds[0], RData::Ns(name("ns1.example.com")));

    let values = vec!["not a name".to_string()];
    assert!(map_records(BackendRecordType::Ns, &values).is_none());
}

#[test]
fn empty_backend_array_is_empty_answer() {
    let qname = name("example.com");
    let rs = lookup_finish(&qname, BackendRecordType::A, 9, 200, Some("[]")).unwrap();
    assert_eq!(rs.records.len(), 0);
    assert_eq!(rs.record_type, RecordType::A);
}

//! The three text grammars: IPv4 literals, domain names, and the JSON
//! array-of-strings body.

use dns_gateway::ipv4::{parse_ipv4, Ipv4Address};
use dns_gateway::json::parse_json_strings;
use dns_gateway::name::DnsName;

fn chars(s: &str) -> Vec<char> {
    s.chars().collect()
}

fn parse_json(s: &str) -> Option<Vec<String>> {
    parse_json_strings(&chars(s))
}

#[test]
fn ipv4_literals() {
    assert_eq!(
        parse_ipv4(&chars("192.168.0.1")),
        Some(Ipv4Address { a: 192, b: 168, c: 0, d: 1 })
    );
    assert_eq!(parse_ipv4(&chars("0.0.0.0")), Some(Ipv4Address { a: 0, b: 0, c: 0, d: 0 }));
    assert_eq!(
        parse_ipv4(&chars("255.255.255.255")),
        Some(Ipv4Address { a: 255, b: 255, c: 255, d: 255 })
    );
}

#[test]
fn ipv4_rejects_malformed() {
    assert_eq!(parse_ipv4(&chars("")), None);
    assert_eq!(parse_ipv4(&chars("abc")), None);
    assert_eq!(parse_ipv4(&chars("1.2.3")), None);
    assert_eq!(parse_ipv4(&chars("1.2.3.4.5")), None);
    assert_eq!(parse_ipv4(&chars("256.0.0.1")), None);
    assert_eq!(parse_ipv4(&chars("1.2.3.256")), None);
    assert_eq!(parse_ipv4(&chars("01.2.3.4")), None);
    assert_eq!(parse_ipv4(&chars("1.2.3.04")), None);
    assert_eq!(parse_ipv4(&chars("1..3.4")), None);
    assert_eq!(parse_ipv4(&chars("1.2.3.4 ")), None);
    assert_eq!(parse_ipv4(&chars("1.2.3.")), None);
    assert_eq!(parse_ipv4(&chars(".1.2.3.4")), None);
    assert_eq!(parse_ipv4(&chars("1234.0.0.1")), None);
}

#[test]
fn names_parse_and_lowercase() {
    let n = DnsName::parse("example.com").unwrap();
    assert_eq!(n.labels, vec!["example".to_string(), "com".to_string()]);

    let n = DnsName::parse("Example.COM").unwrap();
    assert_eq!(n.labels, vec!["example".to_string(), "com".to_string()]);

    let n = DnsName::parse("foo.example.com.").unwrap();
    assert_eq!(
        n.labels,
        vec!["foo".to_string(), "example".to_string(), "com".to_string()]
    );

    let n = DnsName::parse("_acme-challenge.example.com").unwrap();
    assert_eq!(n.labels[0], "_acme-challenge");

    let root = DnsName::parse(".").unwrap();
    assert!(root.labels.is_empty());
}

#[test]
fn names_reject_malformed() {
    assert!(DnsName::parse("").is_none());
    assert!(DnsName::parse("a..b").is_none());
    assert!(DnsName::parse(".a").is_none());
    assert!(DnsName::parse("a b").is_none());
    assert!(DnsName::parse("a.b..").is_none());
    assert!(DnsName::parse("a/b").is_none());
}

#[test]
fn json_arrays_of_strings() {
    assert_eq!(parse_json("[]"), Some(vec![]));
    assert_eq!(parse_json(r#"["a"]"#), Some(vec!["a".to_string()]));
    assert_eq!(
        parse_json(r#"["a", "b", "c"]"#),
        Some(vec!["a".to_string(), "b".to_string(), "c".to_string()])
    );
    assert_eq!(
        parse_json(" [ \"a\" ,\t\"b\" ]\r\n"),
        Some(vec!["a".to_string(), "b".to_string()])
    );
    assert_eq!(
        parse_json(r#"["192.168.0.1", "192.168.0.2"]"#),
        Some(vec!["192.168.0.1".to_string(), "192.168.0.2".to_string()])
    );
}

#[test]
fn json_string_escapes() {
    assert_eq!(parse_json(r#"["a\nb"]"#), Some(vec!["a\nb".to_string()]));
    assert_eq!(
        parse_json(r#"["\"\\\/\b\f\n\r\t"]"#),
        Some(vec!["\"\\/\u{8}\u{c}\n\r\t".to_string()])
    );
    assert_eq!(parse_json(r#"["\u0041"]"#), Some(vec!["A".to_string()]));
    assert_eq!(parse_json(r#"["\u00e9"]"#), Some(vec!["\u{e9}".to_string()]));
    // A surrogate pair encodes one supplementary character.
    assert_eq!(parse_json(r#"["\uD83D\uDE00"]"#), Some(vec!["\u{1F600}".to_string()]));
    assert_eq!(parse_json("[\"😀\"]"), Some(vec!["\u{1F600}".to_string()]));
    // Unescaped text beyond ASCII passes through.
    assert_eq!(parse_json("[\"caf\u{e9}\"]"), Some(vec!["caf\u{e9}".to_string()]));
}

#[test]
fn json_rejects_malformed() {
    assert_eq!(parse_json(""), None);
    assert_eq!(parse_json("["), None);
    assert_eq!(parse_json("]"), None);
    assert_eq!(parse_json(r#"["a""#), None);
    assert_eq!(parse_json(r#"["a",]"#), None);
    assert_eq!(parse_json(r#"["a" "b"]"#), None);
    assert_eq!(parse_json(r#"[,"a"]"#), None);
    assert_eq!(parse_json(r#"[1]"#), None);
    assert_eq!(parse_json(r#"{"a": "b"}"#), None);
    assert_eq!(parse_json(r#""a""#), None);
    assert_eq!(parse_json(r#"["a"] trailing"#), None);
    assert_eq!(parse_json(r#"["\x"]"#), None);
    assert_eq!(parse_json(r#"["\u00"]"#), None);
    assert_eq!(parse_json(r#"["\u00zz"]"#), None);
    // A lone surrogate is not a string.
    assert_eq!(parse_json(r#"["\uD83D"]"#), None);
    assert_eq!(parse_json(r#"["\uDE00"]"#), None);
    // An unescaped control character is refused.
    assert_eq!(parse_json("[\"a\u{1}b\"]"), None);
    assert_eq!(parse_json("[\"a\nb\"]"), None);
}

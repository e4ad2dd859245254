//! The example backend stores: the ACME challenge store and the
//! dynamic-DNS record store.

use dns_gateway::acme::{rocket, ChallengeError, ChallengeStore};
use dns_gateway::dynamicdns;

fn path(segs: &[&str]) -> Vec<String> {
    segs.iter().map(|s| s.to_string()).collect()
}

#[test]
fn challenge_store_round_trip() {
    let mut store = rocket();
    store.present("_acme-challenge.example.com.", "token-value");
    let got = store
        .get_impl(&path(&["com", "example", "_acme-challenge", "TXT"]))
        .unwrap();
    assert_eq!(got, vec!["token-value".to_string()]);
}

#[test]
fn challenge_store_replaces_value() {
    let mut store = rocket();
    store.present("_acme-challenge.example.com.", "first");
    store.present("_acme-challenge.example.com.", "second");
    let got = store
        .get_impl(&path(&["com", "example", "_acme-challenge", "TXT"]))
        .unwrap();
    assert_eq!(got, vec!["second".to_string()]);
}

#[test]
fn challenge_store_cleanup() {
    let mut store = rocket();
    store.present("a.example.com.", "one");
    store.present("b.example.com.", "two");
    store.cleanup("a.example.com.");
    assert_eq!(
        store.get_impl(&path(&["com", "example", "a", "TXT"])).unwrap_err(),
        ChallengeError::MissingChallenge
    );
    assert_eq!(
        store.get_impl(&path(&["com", "example", "b", "TXT"])).unwrap(),
        vec!["two".to_string()]
    );
}

#[test]
fn challenge_store_rejects_bad_paths() {
    let store = ChallengeStore { entries: Vec::new() };
    assert_eq!(
        store.get_impl(&path(&[])).unwrap_err(),
        ChallengeError::MissingRecordType
    );
    assert_eq!(
        store.get_impl(&path(&["com", "example", "A"])).unwrap_err(),
        ChallengeError::UnsupportedRecordType
    );
    assert_eq!(
        store.get_impl(&path(&["com", "example", "TXT"])).unwrap_err(),
        ChallengeError::MissingChallenge
    );
}

#[test]
fn challenge_store_get_maps_errors_to_500() {
    let mut store = rocket();
    assert_eq!(store.get(&path(&["com", "example", "A"])).unwrap_err(), 500);
    assert_eq!(store.get(&path(&["com", "example", "TXT"])).unwrap_err(), 500);
    store.present("example.com.", "tok");
    assert_eq!(
        store.get(&path(&["com", "example", "TXT"])).unwrap(),
        vec!["tok".to_string()]
    );
}

#[test]
fn dynamic_dns_store() {
    let mut store = dynamicdns::rocket();
    assert_eq!(store.get().unwrap_err(), 404);
    store.set("203.0.113.7".to_string());
    assert_eq!(store.get().unwrap(), vec!["203.0.113.7".to_string()]);
    store.set("203.0.113.8".to_string());
    assert_eq!(store.get().unwrap(), vec!["203.0.113.8".to_string()]);
}

//! A DNS zone authority that answers queries by translating them into HTTP
//! lookups against a backend service.
//!
//! The crate holds the resolution core: building the backend URL from a query,
//! interpreting the backend's JSON body as typed DNS records, synthesizing the
//! zone's SOA answer locally, and reducing every failure to a DNS-level
//! outcome.  Transport (UDP/TCP listeners, the HTTP client, wire encoding) is
//! left to the surrounding program, which hands this crate plain values.

pub mod acme;
pub mod authority;
pub mod dynamicdns;
pub mod http;
pub mod ipv4;
pub mod json;
pub mod name;
pub mod records;
pub mod text;
pub mod url;

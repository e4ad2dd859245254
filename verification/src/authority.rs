//! The authority adapter: the zone's configuration and the per-query
//! decisions behind the DNS-server runtime's authority contract.
//!
//! The adapter holds only immutable configuration — the zone origin and
//! the backend endpoint — and answers each query independently.  The
//! transport, the HTTP client and the wire encoding live with the caller;
//! [`HttpAuthority::lookup`] and [`lookup_finish`](crate::http::lookup_finish)
//! decide everything in between.

use vstd::prelude::*;

use crate::http::LookupStep;
use crate::name::{name_of, DnsName};
use crate::records::{ConfigError, LookupError, Record, RecordType};

verus! {

/// The scheme prefix `http://`.
pub open spec fn http_scheme() -> Seq<char> {
    seq!['h', 't', 't', 'p', ':', '/', '/']
}

/// The scheme prefix `https://`.
pub open spec fn https_scheme() -> Seq<char> {
    seq!['h', 't', 't', 'p', 's', ':', '/', '/']
}

/// Whether `p` is a prefix of `s`.
pub open spec fn starts_with(s: Seq<char>, p: Seq<char>) -> bool {
    s.len() >= p.len() && forall|i: int| 0 <= i < p.len() ==> s[i] == p[i]
}

/// The length of the scheme prefix of `s`: 8 for `https://`, 7 for
/// `http://`, 0 for anything else.
pub open spec fn scheme_prefix_len(s: Seq<char>) -> int {
    if starts_with(s, https_scheme()) {
        8
    } else if starts_with(s, http_scheme()) {
        7
    } else {
        0
    }
}

/// A character an endpoint URL may hold: anything but whitespace and the
/// query/fragment delimiters, which would change how the path grows.
pub open spec fn is_endpoint_char(c: char) -> bool {
    !(c == ' ' || c == '\t' || c == '\n' || c == '\r' || c == '?' || c == '#')
}

/// A usable backend endpoint: an `http://` or `https://` URL with a
/// non-empty host part and no whitespace, query or fragment, so that the
/// request URL grows by appending path segments.
pub open spec fn is_valid_endpoint(s: Seq<char>) -> bool {
    &&& scheme_prefix_len(s) > 0
    &&& s.len() > scheme_prefix_len(s)
    &&& s[scheme_prefix_len(s)] != '/'
    &&& forall|i: int| 0 <= i < s.len() ==> is_endpoint_char(#[trigger] s[i])
}

/// The scheme prefix length of `v`, exactly as [`scheme_prefix_len`]
/// states it.
fn endpoint_scheme_len(v: &Vec<char>) -> (r: usize)
    ensures
        r as int == scheme_prefix_len(v@),
{
    let ghost s = v@;
    if v.len() >= 8 && v[0] == 'h' && v[1] == 't' && v[2] == 't' && v[3] == 'p' && v[4] == 's'
        && v[5] == ':' && v[6] == '/' && v[7] == '/' {
        proof {
            assert forall|i: int| 0 <= i < 8 implies s[i] == https_scheme()[i] by {
                if i == 0 {
                } else if i == 1 {
                } else if i == 2 {
                } else if i == 3 {
                } else if i == 4 {
                } else if i == 5 {
                } else if i == 6 {
                } else {
                    assert(i == 7);
                }
            }
            assert(starts_with(s, https_scheme()));
        }
        8
    } else if v.len() >= 7 && v[0] == 'h' && v[1] == 't' && v[2] == 't' && v[3] == 'p' && v[4]
        == ':' && v[5] == '/' && v[6] == '/' {
        proof {
            assert forall|i: int| 0 <= i < 7 implies s[i] == http_scheme()[i] by {
                if i == 0 {
                } else if i == 1 {
                } else if i == 2 {
                } else if i == 3 {
                } else if i == 4 {
                } else if i == 5 {
                } else {
                    assert(i == 6);
                }
            }
            assert(starts_with(s, http_scheme()));
            assert(!starts_with(s, https_scheme())) by {
                if starts_with(s, https_scheme()) {
                    assert(s[4] == https_scheme()[4]);
                }
            }
        }
        7
    } else {
        proof {
            assert(!starts_with(s, https_scheme())) by {
                if starts_with(s, https_scheme()) {
                    assert(s.len() >= 8);
                    assert(s[0] == https_scheme()[0]);
                    assert(s[1] == https_scheme()[1]);
                    assert(s[2] == https_scheme()[2]);
                    assert(s[3] == https_scheme()[3]);
                    assert(s[4] == https_scheme()[4]);
                    assert(s[5] == https_scheme()[5]);
                    assert(s[6] == https_scheme()[6]);
                    assert(s[7] == https_scheme()[7]);
                }
            }
            assert(!starts_with(s, http_scheme())) by {
                if starts_with(s, http_scheme()) {
                    assert(s.len() >= 7);
                    assert(s[0] == http_scheme()[0]);
                    assert(s[1] == http_scheme()[1]);
                    assert(s[2] == http_scheme()[2]);
                    assert(s[3] == http_scheme()[3]);
                    assert(s[4] == http_scheme()[4]);
                    assert(s[5] == http_scheme()[5]);
                    assert(s[6] == http_scheme()[6]);
                }
            }
        }
        0
    }
}

/// Check an endpoint, exactly as [`is_valid_endpoint`] states it.
pub fn validate_endpoint(endpoint: &str) -> (r: bool)
    ensures
        r == is_valid_endpoint(endpoint@),
{
    let v = crate::text::chars_of(endpoint);
    let n = endpoint_scheme_len(&v);
    if n == 0 {
        return false;
    }
    if v.len() <= n {
        return false;
    }
    if v[n] == '/' {
        return false;
    }
    let mut i: usize = 0;
    while i < v.len()
        invariant
            v@ == endpoint@,
            i <= v@.len(),
            forall|k: int| 0 <= k < i ==> is_endpoint_char(#[trigger] v@[k]),
        decreases v@.len() - i,
    {
        let c = v[i];
        if c == ' ' || c == '\t' || c == '\n' || c == '\r' || c == '?' || c == '#' {
            return false;
        }
        i += 1;
    }
    true
}

/// How this authority serves its zone: always as a primary.
#[derive(Clone, Copy, Debug, PartialEq, Eq, Structural)]
pub enum ZoneType {
    Primary,
    Secondary,
}

/// One query as the runtime hands it over: a name and a record type.
#[derive(Clone, Debug)]
pub struct Query {
    pub name: DnsName,
    pub record_type: RecordType,
}

/// The authority for one zone: its origin and the backend endpoint, fixed
/// at construction and shared read-only by every query.
#[derive(Clone, Debug)]
pub struct HttpAuthority {
    pub origin: DnsName,
    pub endpoint: String,
}

impl HttpAuthority {
    /// Well-formed configuration: a valid origin name and endpoint URL.
    pub open spec fn wf(&self) -> bool {
        self.origin.wf() && is_valid_endpoint(self.endpoint@)
    }

    /// Build the authority from its configuration, rejecting an origin
    /// that is not a domain name and an endpoint that is not a usable
    /// HTTP URL.
    pub fn new(origin: &str, endpoint: &str) -> (r: Result<HttpAuthority, ConfigError>)
        ensures
            match r {
                Ok(a) => {
                    &&& name_of(origin@) == Some(a.origin@)
                    &&& is_valid_endpoint(endpoint@)
                    &&& a.endpoint@ == endpoint@
                    &&& a.wf()
                },
                Err(ConfigError::InvalidOrigin) => name_of(origin@) is None,
                Err(ConfigError::InvalidEndpoint) => name_of(origin@) is Some && !is_valid_endpoint(
                    endpoint@,
                ),
            },
    {
        let parsed = match DnsName::parse(origin) {
            Some(n) => n,
            None => { return Err(ConfigError::InvalidOrigin); },
        };
        if !validate_endpoint(endpoint) {
            return Err(ConfigError::InvalidEndpoint);
        }
        Ok(HttpAuthority { origin: parsed, endpoint: endpoint.to_owned() })
    }

    /// The zone is always served as a primary, never a secondary.
    pub fn zone_type(&self) -> (r: ZoneType)
        ensures
            r == ZoneType::Primary,
    {
        ZoneType::Primary
    }

    /// Zone transfer is never allowed: the backend has no enumeration
    /// contract.
    pub fn is_axfr_allowed(&self) -> (r: bool)
        ensures
            !r,
    {
        false
    }

    /// Dynamic update is always rejected as not implemented.
    pub fn update(&mut self) -> (r: Result<bool, LookupError>)
        ensures
            *final(self) == *old(self),
            r == Err::<bool, LookupError>(LookupError::NotImplemented),
    {
        Err(LookupError::NotImplemented)
    }

    /// The configured zone origin.
    pub fn origin(&self) -> (r: &DnsName)
        ensures
            r@ == self.origin@,
    {
        &self.origin
    }

    /// Decide one query, as [`crate::http::lookup`] states it for this
    /// authority's origin and endpoint.
    pub fn lookup(&self, name: &DnsName, record_type: RecordType, serial: u32) -> (r: LookupStep)
        requires
            self.wf(),
            name.wf(),
        ensures
            record_type == RecordType::Soa ==> (r matches LookupStep::Answered(rs) && rs@
                == crate::http::soa_record_set(self.origin@, serial) && rs@.wf()),
            crate::records::backend_type_of(record_type) matches Some(bt) ==> r
                matches LookupStep::Fetch { url, backend_type } && url@ == crate::url::built_url(
                self.endpoint@,
                name@,
                bt,
            ) && backend_type == bt,
            record_type != RecordType::Soa && crate::records::backend_type_of(record_type) is None
                ==> r == LookupStep::Refused(LookupError::NotImplemented),
    {
        crate::http::lookup(self.endpoint.as_str(), &self.origin, name, record_type, serial)
    }

    /// Answer a search by delegating to [`Self::lookup`] on the query's
    /// name and type, adding nothing of its own.
    pub fn search(&self, query: &Query, serial: u32) -> (r: LookupStep)
        requires
            self.wf(),
            query.name.wf(),
        ensures
            query.record_type == RecordType::Soa ==> (r matches LookupStep::Answered(rs) && rs@
                == crate::http::soa_record_set(self.origin@, serial) && rs@.wf()),
            crate::records::backend_type_of(query.record_type) matches Some(bt) ==> r
                matches LookupStep::Fetch { url, backend_type } && url@ == crate::url::built_url(
                self.endpoint@,
                query.name@,
                bt,
            ) && backend_type == bt,
            query.record_type != RecordType::Soa && crate::records::backend_type_of(
                query.record_type,
            ) is None ==> r == LookupStep::Refused(LookupError::NotImplemented),
    {
        self.lookup(&query.name, query.record_type, serial)
    }

    /// DNSSEC negative proofs are unsupported: always an empty answer.
    pub fn get_nsec_records(&self, _name: &DnsName) -> (r: Vec<Record>)
        ensures
            r@.len() == 0,
    {
        Vec::new()
    }

    /// DNSSEC key management is always rejected as not implemented.
    pub fn add_update_auth_key(&mut self) -> (r: Result<(), LookupError>)
        ensures
            *final(self) == *old(self),
            r == Err::<(), LookupError>(LookupError::NotImplemented),
    {
        Err(LookupError::NotImplemented)
    }

    /// Zone signing keys are always rejected as not implemented.
    pub fn add_zone_signing_key(&mut self) -> (r: Result<(), LookupError>)
        ensures
            *final(self) == *old(self),
            r == Err::<(), LookupError>(LookupError::NotImplemented),
    {
        Err(LookupError::NotImplemented)
    }

    /// Securing the zone is always rejected as not implemented.
    pub fn secure_zone(&mut self) -> (r: Result<(), LookupError>)
        ensures
            *final(self) == *old(self),
            r == Err::<(), LookupError>(LookupError::NotImplemented),
    {
        Err(LookupError::NotImplemented)
    }
}

} // verus!

//! The resolution pipeline for one query: answering SOA locally, building
//! the backend request, and turning the backend's response into a record
//! set.
//!
//! The backend call itself is I/O and lives with the caller; this module
//! decides everything around it.  [`lookup`] inspects the query and either
//! answers (SOA), refuses (unsupported type), or names the URL to fetch;
//! [`lookup_finish`] takes whatever came back and produces the record set
//! or the failure signal.

use vstd::prelude::*;

use crate::ipv4::{ipv4_of, parse_ipv4};
use crate::json::{json_strings_of, parse_json_strings};
use crate::name::{name_of, valid_label, DnsName};
use crate::records::{
    backend_type_of, classify_record_type, BackendRecordType, LookupError, RData, RDataModel,
    Record, RecordModel, RecordSet, RecordSetModel, RecordType, SoaData,
};
use crate::text::chars_of;
use crate::url::{build_request_url, built_url};

verus! {

/// The RDATA a backend value decodes to under a record type: an IPv4
/// literal for A, a domain name for NS, the verbatim text for TXT.
pub open spec fn rdata_of(t: BackendRecordType, v: Seq<char>) -> Option<RDataModel> {
    match t {
        BackendRecordType::A => match ipv4_of(v) {
            Some(ip) => Some(RDataModel::A(ip)),
            None => None,
        },
        BackendRecordType::Ns => match name_of(v) {
            Some(labels) => Some(RDataModel::Ns(labels)),
            None => None,
        },
        BackendRecordType::Txt => Some(RDataModel::Txt(v)),
    }
}

/// Decode one backend value, exactly as [`rdata_of`] states it.
pub fn map_record(t: BackendRecordType, value: &str) -> (r: Option<RData>)
    ensures
        match r {
            Some(rd) => rdata_of(t, value@) == Some(rd@) && rd@.matches_type(t.record_type()),
            None => rdata_of(t, value@) is None,
        },
{
    match t {
        BackendRecordType::A => {
            let v = chars_of(value);
            match parse_ipv4(&v) {
                Some(ip) => Some(RData::A(ip)),
                None => None,
            }
        },
        BackendRecordType::Ns => {
            match DnsName::parse(value) {
                Some(n) => Some(RData::Ns(n)),
                None => None,
            }
        },
        BackendRecordType::Txt => Some(RData::Txt(value.to_owned())),
    }
}

/// Whether every backend value decodes under `t`.
pub open spec fn all_values_map(t: BackendRecordType, vals: Seq<Seq<char>>) -> bool {
    forall|i: int| 0 <= i < vals.len() ==> rdata_of(t, #[trigger] vals[i]) is Some
}

/// The record set built from the backend's values: the queried name and
/// type, TTL 60, and one record per value, in the backend's order.
pub open spec fn backend_record_set(
    name: Seq<Seq<char>>,
    t: BackendRecordType,
    serial: u32,
    vals: Seq<Seq<char>>,
) -> RecordSetModel {
    RecordSetModel {
        name,
        record_type: t.record_type(),
        ttl: 60,
        serial,
        records: Seq::new(
            vals.len(),
            |i: int| RecordModel {
                name,
                record_type: t.record_type(),
                ttl: 60,
                rdata: rdata_of(t, vals[i])->Some_0,
            },
        ),
    }
}

/// The synthesized SOA answer for the zone: one record at the origin, TTL
/// 60, the `ns` and `hostmaster` names under the origin, the given serial,
/// and the fixed refresh/retry/expire/minimum timers.
pub open spec fn soa_record_set(origin: Seq<Seq<char>>, serial: u32) -> RecordSetModel {
    RecordSetModel {
        name: origin,
        record_type: RecordType::Soa,
        ttl: 60,
        serial,
        records: seq![
            RecordModel {
                name: origin,
                record_type: RecordType::Soa,
                ttl: 60,
                rdata: RDataModel::Soa {
                    mname: seq![seq!['n', 's']] + origin,
                    rname: seq![seq!['h', 'o', 's', 't', 'm', 'a', 's', 't', 'e', 'r']] + origin,
                    serial,
                    refresh: 86400,
                    retry: 7200,
                    expire: 3600000,
                    minimum: 15,
                },
            },
        ],
    }
}

/// Synthesize the zone's SOA answer, exactly as [`soa_record_set`] states
/// it: always one record, of type SOA, named by the origin, TTL 60.
pub fn synthesize_soa(origin: &DnsName, serial: u32) -> (r: RecordSet)
    requires
        origin.wf(),
    ensures
        r@ == soa_record_set(origin@, serial),
        r@.records.len() == 1,
        r@.wf(),
{
    proof {
        reveal_strlit("ns");
        reveal_strlit("hostmaster");
        assert("ns"@ =~= seq!['n', 's']);
        assert("hostmaster"@ =~= seq!['h', 'o', 's', 't', 'm', 'a', 's', 't', 'e', 'r']);
        assert(valid_label("ns"@));
        assert(valid_label("hostmaster"@));
    }
    let mname = origin.prepend("ns");
    let rname = origin.prepend("hostmaster");
    let record = Record {
        name: origin.duplicate(),
        record_type: RecordType::Soa,
        ttl: 60,
        rdata: RData::Soa(
            SoaData {
                mname,
                rname,
                serial,
                refresh: 86400,
                retry: 7200,
                expire: 3600000,
                minimum: 15,
            },
        ),
    };
    let mut records: Vec<Record> = Vec::new();
    records.push(record);
    let r = RecordSet {
        name: origin.duplicate(),
        record_type: RecordType::Soa,
        ttl: 60,
        serial,
        records,
    };
    proof {
        assert(r@.records =~= soa_record_set(origin@, serial).records);
        assert(r@ == soa_record_set(origin@, serial));
    }
    r
}

/// What [`lookup`] decides for a query: an answer synthesized locally, a
/// backend URL still to be fetched, or a refusal.
#[derive(Debug)]
pub enum LookupStep {
    Answered(RecordSet),
    Fetch { url: String, backend_type: BackendRecordType },
    Refused(LookupError),
}

/// Decide a query: SOA is answered locally from the origin without any
/// backend traffic; A, TXT and NS name the URL to fetch; every other type
/// is refused with the distinct "not implemented" signal.
pub fn lookup(
    endpoint: &str,
    origin: &DnsName,
    name: &DnsName,
    record_type: RecordType,
    serial: u32,
) -> (r: LookupStep)
    requires
        origin.wf(),
        name.wf(),
    ensures
        record_type == RecordType::Soa ==> (r matches LookupStep::Answered(rs) && rs@
            == soa_record_set(origin@, serial) && rs@.wf()),
        backend_type_of(record_type) matches Some(bt) ==> r matches LookupStep::Fetch {
            url,
            backend_type,
        } && url@ == built_url(endpoint@, name@, bt) && backend_type == bt,
        record_type != RecordType::Soa && backend_type_of(record_type) is None ==> r
            == LookupStep::Refused(LookupError::NotImplemented),
{
    if let RecordType::Soa = record_type {
        return LookupStep::Answered(synthesize_soa(origin, serial));
    }
    match classify_record_type(record_type) {
        Some(bt) => LookupStep::Fetch { url: build_request_url(endpoint, name, bt), backend_type: bt },
        None => LookupStep::Refused(LookupError::NotImplemented),
    }
}

/// Decode the backend's values, exactly as [`rdata_of`] states each one
/// and in the backend's order; one malformed value fails the whole batch.
pub fn map_records(t: BackendRecordType, values: &Vec<String>) -> (r: Option<Vec<RData>>)
    ensures
        match r {
            Some(rds) => {
                &&& all_values_map(t, values.deep_view())
                &&& rds.deep_view().len() == values.deep_view().len()
                &&& forall|i: int|
                    0 <= i < rds.deep_view().len() ==> Some(#[trigger] rds.deep_view()[i])
                        == rdata_of(t, values.deep_view()[i])
            },
            None => !all_values_map(t, values.deep_view()),
        },
{
    let ghost vals = values.deep_view();
    let mut rds: Vec<RData> = Vec::new();
    let mut i: usize = 0;
    while i < values.len()
        invariant
            vals == values.deep_view(),
            i <= vals.len(),
            rds.deep_view().len() == i,
            forall|k: int|
                0 <= k < i ==> Some(#[trigger] rds.deep_view()[k]) == rdata_of(t, vals[k]),
        decreases vals.len() - i,
    {
        let ghost pre = rds.deep_view();
        match map_record(t, values[i].as_str()) {
            Some(rd) => {
                rds.push(rd);
                proof {
                    assert(rds.deep_view() =~= pre.push(rds@[i as int]@));
                }
            },
            None => {
                proof {
                    assert(rdata_of(t, vals[i as int]) is None);
                }
                return None;
            },
        }
        i += 1;
    }
    proof {
        assert forall|k: int| 0 <= k < vals.len() implies rdata_of(t, #[trigger] vals[k]) is Some by {
            assert(Some(rds.deep_view()[k]) == rdata_of(t, vals[k]));
        }
    }
    Some(rds)
}

/// Finish a lookup from whatever the backend returned: `status` is the
/// HTTP status, `body` the response text (`None` when the body was not
/// valid text).  A non-2xx status, an unreadable body, a body that is not
/// a JSON array of strings, and a value that does not decode under `t`
/// are all the one outward server failure; otherwise the record set holds
/// the decoded values in the backend's order.
pub fn lookup_finish(
    name: &DnsName,
    t: BackendRecordType,
    serial: u32,
    status: u16,
    body: Option<&str>,
) -> (r: Result<RecordSet, LookupError>)
    requires
        name.wf(),
    ensures
        !(200 <= status < 300) ==> r == Err::<RecordSet, LookupError>(LookupError::ServerFailure),
        200 <= status < 300 && body is None ==> r == Err::<RecordSet, LookupError>(
            LookupError::ServerFailure,
        ),
        body matches Some(b) ==> 200 <= status < 300 ==> match json_strings_of(b@) {
            None => r == Err::<RecordSet, LookupError>(LookupError::ServerFailure),
            Some(vals) => {
                if all_values_map(t, vals) {
                    r matches Ok(rs) && rs@ == backend_record_set(name@, t, serial, vals)
                        && rs@.wf()
                } else {
                    r == Err::<RecordSet, LookupError>(LookupError::ServerFailure)
                }
            },
        },
{
    if !(200 <= status && status < 300) {
        return Err(LookupError::ServerFailure);
    }
    let b = match body {
        Some(b) => b,
        None => { return Err(LookupError::ServerFailure); },
    };
    let chars = chars_of(b);
    let values = match parse_json_strings(&chars) {
        Some(values) => values,
        None => { return Err(LookupError::ServerFailure); },
    };
    let ghost vals = values.deep_view();
    let mut records: Vec<Record> = Vec::new();
    let mut i: usize = 0;
    let record_type = t.to_record_type();
    while i < values.len()
        invariant
            name.wf(),
            body == Some(b),
            200 <= status < 300,
            json_strings_of(b@) == Some(vals),
            vals == values.deep_view(),
            record_type == t.record_type(),
            i <= vals.len(),
            records.deep_view().len() == i,
            forall|k: int| 0 <= k < i ==> rdata_of(t, #[trigger] vals[k]) is Some,
            forall|k: int|
                0 <= k < i ==> #[trigger] records.deep_view()[k] == (RecordModel {
                    name: name@,
                    record_type: t.record_type(),
                    ttl: 60,
                    rdata: rdata_of(t, vals[k])->Some_0,
                }),
        decreases vals.len() - i,
    {
        let ghost pre = records.deep_view();
        proof {
            assert(values@[i as int]@ == vals[i as int]);
        }
        match map_record(t, values[i].as_str()) {
            Some(rd) => {
                records.push(Record { name: name.duplicate(), record_type, ttl: 60, rdata: rd });
                i += 1;
                proof {
                    assert(records.deep_view() =~= pre.push(records@[i - 1]@));
                }
            },
            None => {
                proof {
                    assert(rdata_of(t, vals[i as int]) is None);
                    assert(!all_values_map(t, vals));
                }
                return Err(LookupError::ServerFailure);
            },
        }
    }
    let rs = RecordSet { name: name.duplicate(), record_type, ttl: 60, serial, records };
    proof {
        assert(rs@.records =~= backend_record_set(name@, t, serial, vals).records);
        assert(rs@ == backend_record_set(name@, t, serial, vals));
        assert(rs@.wf());
    }
    Ok(rs)
}

/// The serial for a request: the wall-clock milliseconds since the Unix
/// epoch, truncated to 32 bits.  The clock itself is read by the caller;
/// this states the truncation.
pub fn serial_of_millis(millis: u64) -> (r: u32)
    ensures
        r as int == millis as int % 0x1_0000_0000,
{
    #[verifier::truncate]
    let r = millis as u32;
    proof {
        assert(r as int == millis as int % 0x1_0000_0000) by (bit_vector)
            requires
                r == millis as u32,
        ;
    }
    r
}

/// Across successive calls the serial is non-decreasing, as long as the
/// clock's millisecond count has not crossed a 32-bit wrap between them:
/// a later reading in the same wrap window gives a serial at least as
/// large.
pub proof fn lemma_serial_non_decreasing(m1: u64, m2: u64)
    requires
        m1 <= m2,
        m1 as int / 0x1_0000_0000 == m2 as int / 0x1_0000_0000,
    ensures
        m1 as int % 0x1_0000_0000 <= m2 as int % 0x1_0000_0000,
{
    assert(m1 as int % 0x1_0000_0000 <= m2 as int % 0x1_0000_0000) by (nonlinear_arith)
        requires
            m1 <= m2,
            m1 as int / 0x1_0000_0000 == m2 as int / 0x1_0000_0000,
    ;
}

} // verus!

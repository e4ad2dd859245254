//! DNS record data: record types, RDATA payloads, records and record sets,
//! and the two outward failure signals of a lookup.

use vstd::prelude::*;

use crate::ipv4::Ipv4Address;
use crate::name::{valid_labels, DnsName};

verus! {

/// The record types the adapter recognizes in a query.
#[derive(Clone, Copy, Debug, PartialEq, Eq, Structural)]
pub enum RecordType {
    A,
    Aaaa,
    Cname,
    Mx,
    Ns,
    Soa,
    Txt,
}

/// The record types that are fetched from the backend: SOA is answered
/// locally and everything else is refused, so neither reaches the mapper.
#[derive(Clone, Copy, Debug, PartialEq, Eq, Structural)]
pub enum BackendRecordType {
    A,
    Ns,
    Txt,
}

/// The backend-fetched type behind a query type, if any: `None` for SOA
/// (answered locally) and for the unsupported types.
pub open spec fn backend_type_of(t: RecordType) -> Option<BackendRecordType> {
    match t {
        RecordType::A => Some(BackendRecordType::A),
        RecordType::Ns => Some(BackendRecordType::Ns),
        RecordType::Txt => Some(BackendRecordType::Txt),
        _ => None,
    }
}

impl BackendRecordType {
    /// The query type this backend type answers.
    pub open spec fn record_type(self) -> RecordType {
        match self {
            BackendRecordType::A => RecordType::A,
            BackendRecordType::Ns => RecordType::Ns,
            BackendRecordType::Txt => RecordType::Txt,
        }
    }

    /// Executable counterpart of [`Self::record_type`].
    pub fn to_record_type(self) -> (r: RecordType)
        ensures
            r == self.record_type(),
    {
        match self {
            BackendRecordType::A => RecordType::A,
            BackendRecordType::Ns => RecordType::Ns,
            BackendRecordType::Txt => RecordType::Txt,
        }
    }
}

/// Executable counterpart of [`backend_type_of`].
pub fn classify_record_type(t: RecordType) -> (r: Option<BackendRecordType>)
    ensures
        r == backend_type_of(t),
{
    match t {
        RecordType::A => Some(BackendRecordType::A),
        RecordType::Ns => Some(BackendRecordType::Ns),
        RecordType::Txt => Some(BackendRecordType::Txt),
        _ => None,
    }
}

/// The SOA payload: zone metadata.
#[derive(Clone, Debug, PartialEq, Eq)]
pub struct SoaData {
    /// Primary nameserver for the zone.
    pub mname: DnsName,
    /// Responsible party, written as a name.
    pub rname: DnsName,
    pub serial: u32,
    pub refresh: i32,
    pub retry: i32,
    pub expire: i32,
    pub minimum: u32,
}

/// The type-specific payload of a record.
#[derive(Clone, Debug, PartialEq, Eq)]
pub enum RData {
    A(Ipv4Address),
    Ns(DnsName),
    Txt(String),
    Soa(SoaData),
}

/// The mathematical value of an RDATA payload.
pub enum RDataModel {
    A(Ipv4Address),
    Ns(Seq<Seq<char>>),
    Txt(Seq<char>),
    Soa {
        mname: Seq<Seq<char>>,
        rname: Seq<Seq<char>>,
        serial: u32,
        refresh: i32,
        retry: i32,
        expire: i32,
        minimum: u32,
    },
}

impl View for RData {
    type V = RDataModel;

    open spec fn view(&self) -> RDataModel {
        match self {
            RData::A(ip) => RDataModel::A(*ip),
            RData::Ns(n) => RDataModel::Ns(n@),
            RData::Txt(t) => RDataModel::Txt(t@),
            RData::Soa(s) => RDataModel::Soa {
                mname: s.mname@,
                rname: s.rname@,
                serial: s.serial,
                refresh: s.refresh,
                retry: s.retry,
                expire: s.expire,
                minimum: s.minimum,
            },
        }
    }
}

impl DeepView for RData {
    type V = RDataModel;

    open spec fn deep_view(&self) -> RDataModel {
        self.view()
    }
}

impl RDataModel {
    /// Whether this payload belongs to record type `t`.
    pub open spec fn matches_type(self, t: RecordType) -> bool {
        match self {
            RDataModel::A(_) => t == RecordType::A,
            RDataModel::Ns(_) => t == RecordType::Ns,
            RDataModel::Txt(_) => t == RecordType::Txt,
            RDataModel::Soa { .. } => t == RecordType::Soa,
        }
    }
}

/// One DNS record.
#[derive(Clone, Debug, PartialEq, Eq)]
pub struct Record {
    pub name: DnsName,
    pub record_type: RecordType,
    pub ttl: u32,
    pub rdata: RData,
}

/// The mathematical value of a record.
pub struct RecordModel {
    pub name: Seq<Seq<char>>,
    pub record_type: RecordType,
    pub ttl: u32,
    pub rdata: RDataModel,
}

impl View for Record {
    type V = RecordModel;

    open spec fn view(&self) -> RecordModel {
        RecordModel {
            name: self.name@,
            record_type: self.record_type,
            ttl: self.ttl,
            rdata: self.rdata@,
        }
    }
}

impl DeepView for Record {
    type V = RecordModel;

    open spec fn deep_view(&self) -> RecordModel {
        self.view()
    }
}

/// An ordered group of same-type, same-name records, with the TTL and the
/// serial that apply to the answer.
#[derive(Clone, Debug, PartialEq, Eq)]
pub struct RecordSet {
    pub name: DnsName,
    pub record_type: RecordType,
    pub ttl: u32,
    pub serial: u32,
    pub records: Vec<Record>,
}

/// The mathematical value of a record set.
pub struct RecordSetModel {
    pub name: Seq<Seq<char>>,
    pub record_type: RecordType,
    pub ttl: u32,
    pub serial: u32,
    pub records: Seq<RecordModel>,
}

impl View for RecordSet {
    type V = RecordSetModel;

    open spec fn view(&self) -> RecordSetModel {
        RecordSetModel {
            name: self.name@,
            record_type: self.record_type,
            ttl: self.ttl,
            serial: self.serial,
            records: self.records.deep_view(),
        }
    }
}

impl RecordSetModel {
    /// The record set's invariant: the name is well-formed, and every
    /// record carries the set's name, type and TTL, with a payload of
    /// that type.
    pub open spec fn wf(self) -> bool {
        &&& valid_labels(self.name)
        &&& forall|i: int|
            0 <= i < self.records.len() ==> {
                &&& (#[trigger] self.records[i]).name == self.name
                &&& self.records[i].record_type == self.record_type
                &&& self.records[i].ttl == self.ttl
                &&& self.records[i].rdata.matches_type(self.record_type)
            }
    }
}

/// The two outward signals of a failed lookup: a server failure for
/// backend or mapping trouble, and a distinct "not implemented" for an
/// unsupported record type.
#[derive(Clone, Copy, Debug, PartialEq, Eq, Structural)]
pub enum LookupError {
    ServerFailure,
    NotImplemented,
}

/// Failures of building the authority from configuration.
#[derive(Clone, Copy, Debug, PartialEq, Eq, Structural)]
pub enum ConfigError {
    InvalidOrigin,
    InvalidEndpoint,
}

} // verus!

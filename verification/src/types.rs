//! The result structures of the four checks, each with its mathematical
//! view: strings become `Seq<char>`, vectors become `Seq`.

use vstd::prelude::*;

verus! {

/// The views of a sequence of values.
pub open spec fn views<T: View>(v: Seq<T>) -> Seq<T::V> {
    Seq::new(v.len(), |i: int| v[i]@)
}

/// One flattened DNS answer.
#[derive(Clone, Debug, PartialEq, Eq)]
pub struct DnsRecord {
    pub name: String,
    pub ttl: String,
    pub record_type: String,
    pub data: String,
}

pub struct DnsRecordView {
    pub name: Seq<char>,
    pub ttl: Seq<char>,
    pub record_type: Seq<char>,
    pub data: Seq<char>,
}

impl View for DnsRecord {
    type V = DnsRecordView;

    open spec fn view(&self) -> DnsRecordView {
        DnsRecordView {
            name: self.name@,
            ttl: self.ttl@,
            record_type: self.record_type@,
            data: self.data@,
        }
    }
}

/// The answers gathered for one domain, in the order of the queries.
#[derive(Clone, Debug, PartialEq, Eq)]
pub struct DnsRecords {
    pub dns_records: Vec<DnsRecord>,
}

impl View for DnsRecords {
    type V = Seq<DnsRecordView>;

    open spec fn view(&self) -> Seq<DnsRecordView> {
        views(self.dns_records@)
    }
}

/// One CAA answer: its owner, its tag (`issue`, `issuewild`, `iodef` or
/// anything else the record held) and its value.
#[derive(Clone, Debug, PartialEq, Eq)]
pub struct CAARecords {
    pub name: String,
    pub caa_type: String,
    pub data: String,
}

pub struct CAARecordsView {
    pub name: Seq<char>,
    pub caa_type: Seq<char>,
    pub data: Seq<char>,
}

impl View for CAARecords {
    type V = CAARecordsView;

    open spec fn view(&self) -> CAARecordsView {
        CAARecordsView { name: self.name@, caa_type: self.caa_type@, data: self.data@ }
    }
}

/// The CAA policy of a domain.
#[derive(Clone, Debug, PartialEq, Eq)]
pub struct CheckCAA {
    pub record_exists: bool,
    pub reporting_enabled: bool,
    pub records: Vec<CAARecords>,
}

pub struct CheckCAAView {
    pub record_exists: bool,
    pub reporting_enabled: bool,
    pub records: Seq<CAARecordsView>,
}

impl View for CheckCAA {
    type V = CheckCAAView;

    open spec fn view(&self) -> CheckCAAView {
        CheckCAAView {
            record_exists: self.record_exists,
            reporting_enabled: self.reporting_enabled,
            records: views(self.records@),
        }
    }
}

/// The summary of one nameserver, by its host name.
#[derive(Clone, Debug, PartialEq, Eq)]
pub struct NSARecords {
    pub nsdomain: String,
    pub operational: bool,
    pub ipv4available: bool,
    pub ipv6available: bool,
    pub ipv4_addresses: Vec<String>,
    pub ipv6_addresses: Vec<String>,
    pub referral_ns_soa: bool,
}

pub struct NSARecordsView {
    pub nsdomain: Seq<char>,
    pub operational: bool,
    pub ipv4available: bool,
    pub ipv6available: bool,
    pub ipv4_addresses: Seq<Seq<char>>,
    pub ipv6_addresses: Seq<Seq<char>>,
    pub referral_ns_soa: bool,
}

impl View for NSARecords {
    type V = NSARecordsView;

    open spec fn view(&self) -> NSARecordsView {
        NSARecordsView {
            nsdomain: self.nsdomain@,
            operational: self.operational,
            ipv4available: self.ipv4available,
            ipv6available: self.ipv6available,
            ipv4_addresses: views(self.ipv4_addresses@),
            ipv6_addresses: views(self.ipv6_addresses@),
            referral_ns_soa: self.referral_ns_soa,
        }
    }
}

/// What was found out about one address of one nameserver.
#[derive(Clone, Debug, PartialEq, Eq)]
pub struct NSAddresses {
    pub ip: String,
    pub ptr: String,
    pub referral_ns_soa: bool,
    pub operational: bool,
    pub authoritative: bool,
    pub recursive: bool,
    pub udp: bool,
    pub tcp: bool,
}

pub struct NSAddressesView {
    pub ip: Seq<char>,
    pub ptr: Seq<char>,
    pub referral_ns_soa: bool,
    pub operational: bool,
    pub authoritative: bool,
    pub recursive: bool,
    pub udp: bool,
    pub tcp: bool,
}

impl View for NSAddresses {
    type V = NSAddressesView;

    open spec fn view(&self) -> NSAddressesView {
        NSAddressesView {
            ip: self.ip@,
            ptr: self.ptr@,
            referral_ns_soa: self.referral_ns_soa,
            operational: self.operational,
            authoritative: self.authoritative,
            recursive: self.recursive,
            udp: self.udp,
            tcp: self.tcp,
        }
    }
}

/// The fields of a start-of-authority answer, as they were rendered.
#[derive(Clone, Debug, PartialEq, Eq)]
pub struct SOARecord {
    pub primary_ns: String,
    pub contact: String,
    pub serial: String,
    pub refresh: String,
    pub retry: String,
    pub expire: String,
    pub cache_ttl: String,
    pub soa_ttl: String,
}

pub struct SOARecordView {
    pub primary_ns: Seq<char>,
    pub contact: Seq<char>,
    pub serial: Seq<char>,
    pub refresh: Seq<char>,
    pub retry: Seq<char>,
    pub expire: Seq<char>,
    pub cache_ttl: Seq<char>,
    pub soa_ttl: Seq<char>,
}

impl View for SOARecord {
    type V = SOARecordView;

    open spec fn view(&self) -> SOARecordView {
        SOARecordView {
            primary_ns: self.primary_ns@,
            contact: self.contact@,
            serial: self.serial@,
            refresh: self.refresh@,
            retry: self.retry@,
            expire: self.expire@,
            cache_ttl: self.cache_ttl@,
            soa_ttl: self.soa_ttl@,
        }
    }
}

/// Whether the zone of a name is signed.
#[derive(Clone, Copy, Debug, PartialEq, Eq)]
pub struct DNSSEC {
    pub dnssec_enabled: bool,
}

/// The nameservers of a domain: one summary per host name, one entry per
/// address, and the start of authority that both were held against.
#[derive(Clone, Debug, PartialEq, Eq)]
pub struct NSRecord {
    pub name: String,
    pub records: Vec<NSARecords>,
    pub nsaddresses: Vec<NSAddresses>,
    pub soa: SOARecord,
}

pub struct NSRecordView {
    pub name: Seq<char>,
    pub records: Seq<NSARecordsView>,
    pub nsaddresses: Seq<NSAddressesView>,
    pub soa: SOARecordView,
}

impl View for NSRecord {
    type V = NSRecordView;

    open spec fn view(&self) -> NSRecordView {
        NSRecordView {
            name: self.name@,
            records: views(self.records@),
            nsaddresses: views(self.nsaddresses@),
            soa: self.soa@,
        }
    }
}

/// One mail exchanger of a domain.
#[derive(Clone, Debug, PartialEq, Eq)]
pub struct Mx {
    pub name: String,
    pub ipv4: String,
    pub ipv6: String,
    pub ptr: String,
    pub preference: i8,
    pub dnssec: bool,
}

pub struct MxView {
    pub name: Seq<char>,
    pub ipv4: Seq<char>,
    pub ipv6: Seq<char>,
    pub ptr: Seq<char>,
    pub preference: i8,
    pub dnssec: bool,
}

impl View for Mx {
    type V = MxView;

    open spec fn view(&self) -> MxView {
        MxView {
            name: self.name@,
            ipv4: self.ipv4@,
            ipv6: self.ipv6@,
            ptr: self.ptr@,
            preference: self.preference,
            dnssec: self.dnssec,
        }
    }
}

/// The mail exchangers of a domain, in the order of the MX answers.
#[derive(Clone, Debug, PartialEq, Eq)]
pub struct Email {
    pub mx: Vec<Mx>,
}

impl View for Email {
    type V = Seq<MxView>;

    open spec fn view(&self) -> Seq<MxView> {
        views(self.mx@)
    }
}

/// Why a check has no report: the query that the whole report rests on had
/// no answer.
#[derive(Clone, Copy, Debug, PartialEq, Eq)]
pub enum CheckError {
    NoCaaRecords,
    NoNsRecords,
    NoMxRecords,
}

impl CheckError {
    /// The reason in words.
    pub open spec fn reason(self) -> Seq<char> {
        match self {
            CheckError::NoCaaRecords => "No CAA records found"@,
            CheckError::NoNsRecords => "No NS records found"@,
            CheckError::NoMxRecords => "No MX records found"@,
        }
    }

    /// The reason in words.
    pub fn message(&self) -> (out: String)
        ensures
            out@ == self.reason(),
    {
        match self {
            CheckError::NoCaaRecords => "No CAA records found".to_owned(),
            CheckError::NoNsRecords => "No NS records found".to_owned(),
            CheckError::NoMxRecords => "No MX records found".to_owned(),
        }
    }
}

} // verus!

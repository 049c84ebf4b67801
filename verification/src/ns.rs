//! The nameserver authority prober.
//!
//! The prober asks for the start of authority and the nameservers of a
//! domain, then for the addresses of each nameserver, and then puts four
//! questions to each address: does it accept a TCP connection, does it
//! answer for the domain, does it answer for a zone that is not its own,
//! and which name does its reverse zone give.
//!
//! It is written as a machine: [`NsProbe::new`] is the first state,
//! [`NsProbe::query`] says what a state needs answered, and [`check_ns`]
//! takes the reply to the next state or to the report. What the report is,
//! and which queries are asked, for a network that answers every query in
//! one way, is stated and proved in [`crate::ns_report`].

use vstd::prelude::*;
use crate::query::{answered, connect, lookup, pinned, Query, QueryView, RecordType, Reply, Step};
use crate::records::{
    final_head, heads, last_record_head, no_soa, record_heads, soa_from, soa_record,
    unknown_soa,
};
use crate::reverse::{
    ipv4_reverse_zone, ipv4_to_reverse_zone, ipv6_reverse_zone, ipv6_to_reverse_zone,
};
use crate::text::texts;
use crate::types::{
    views, CheckError, NSARecords, NSARecordsView, NSAddresses, NSAddressesView, NSRecord,
    NSRecordView, SOARecord, SOARecordView,
};

verus! {

/// The zone that every recursive resolver can resolve and that no probed
/// nameserver is expected to serve.
pub open spec fn control_domain() -> Seq<char> {
    "internetstiftelsen.se"@
}

/// Whether `name` is the primary nameserver. An unknown primary is never
/// matched.
pub open spec fn refers(name: Seq<char>, primary: Seq<char>) -> bool {
    primary.len() > 0 && name == primary
}

/// The addresses that the reply to an address query holds.
pub open spec fn addresses(reply: Option<Seq<Seq<char>>>) -> Seq<Seq<char>> {
    match reply {
        Some(records) => heads(records),
        None => Seq::empty(),
    }
}

/// The name that the reply to a PTR query gives: that of its last record,
/// the empty name without an answer.
pub open spec fn ptr_name(reply: Option<Seq<Seq<char>>>) -> Seq<char> {
    match reply {
        Some(records) => final_head(records),
        None => Seq::empty(),
    }
}

/// The question that the prober has still to ask.
#[derive(Clone, Copy, Debug, PartialEq, Eq)]
pub enum NsStage {
    /// The start of authority of the domain.
    Soa,
    /// The nameservers of the domain.
    Ns,
    /// The IPv4 addresses of the current nameserver.
    Ipv4,
    /// The IPv6 addresses of the current nameserver.
    Ipv6,
    /// A TCP connection to the current address.
    Tcp,
    /// The domain, asked of the current address.
    Authority,
    /// The control domain, asked of the current address.
    Recursion,
    /// The reverse zone of the current address.
    Ptr,
}

/// An address to probe, with the name of its reverse zone where it has one.
#[derive(Clone, Debug, PartialEq, Eq)]
pub struct Target {
    pub address: String,
    pub zone: Option<String>,
}

pub struct TargetView {
    pub address: Seq<char>,
    pub zone: Option<Seq<char>>,
}

impl View for Target {
    type V = TargetView;

    open spec fn view(&self) -> TargetView {
        TargetView {
            address: self.address@,
            zone: match self.zone {
                Some(zone) => Some(zone@),
                None => None,
            },
        }
    }
}

/// What a probe holds between two queries.
#[derive(Debug, PartialEq, Eq)]
struct NsState {
    domain: String,
    stage: NsStage,
    soa: SOARecord,
    hosts: Vec<String>,
    host: usize,
    ipv4: Reply,
    targets: Vec<Target>,
    target: usize,
    tcp: bool,
    authoritative: bool,
    recursive: bool,
    records: Vec<NSARecords>,
    nsaddresses: Vec<NSAddresses>,
}

/// A probe of the nameservers of one domain, between two queries.
#[derive(Debug, PartialEq, Eq)]
pub struct NsProbe {
    state: NsState,
}

pub struct NsProbeView {
    pub domain: Seq<char>,
    pub stage: NsStage,
    pub soa: SOARecordView,
    /// The nameservers of the domain.
    pub hosts: Seq<Seq<char>>,
    /// The position of the current nameserver in `hosts`.
    pub host: int,
    /// The reply to the IPv4 address query for the current nameserver.
    pub ipv4: Option<Seq<Seq<char>>>,
    /// The addresses of the current nameserver.
    pub targets: Seq<TargetView>,
    /// The position of the current address in `targets`.
    pub target: int,
    pub tcp: bool,
    pub authoritative: bool,
    pub recursive: bool,
    pub records: Seq<NSARecordsView>,
    pub nsaddresses: Seq<NSAddressesView>,
}

impl View for NsState {
    type V = NsProbeView;

    closed spec fn view(&self) -> NsProbeView {
        NsProbeView {
            domain: self.domain@,
            stage: self.stage,
            soa: self.soa@,
            hosts: texts(self.hosts@),
            host: self.host as int,
            ipv4: self.ipv4@,
            targets: views(self.targets@),
            target: self.target as int,
            tcp: self.tcp,
            authoritative: self.authoritative,
            recursive: self.recursive,
            records: views(self.records@),
            nsaddresses: views(self.nsaddresses@),
        }
    }
}

impl View for NsProbe {
    type V = NsProbeView;

    closed spec fn view(&self) -> NsProbeView {
        self.state@
    }
}

/// The IPv4 address `address` as a target.
pub open spec fn ipv4_target(address: Seq<char>) -> TargetView {
    TargetView { address, zone: Some(ipv4_reverse_zone(address)) }
}

/// The IPv6 address `address` as a target. An address without a full form
/// has no reverse zone.
pub open spec fn ipv6_target(address: Seq<char>) -> TargetView {
    TargetView {
        address,
        zone: match ipv6_reverse_zone(address) {
            Ok(zone) => Some(zone),
            Err(_) => None,
        },
    }
}

/// The targets of a nameserver: its IPv4 addresses, then its IPv6
/// addresses.
pub open spec fn targets_of(ipv4: Seq<Seq<char>>, ipv6: Seq<Seq<char>>) -> Seq<TargetView> {
    Seq::new(ipv4.len(), |i: int| ipv4_target(ipv4[i])) + Seq::new(
        ipv6.len(),
        |i: int| ipv6_target(ipv6[i]),
    )
}

/// The summary of the nameserver `host`, from the replies to its two
/// address queries.
pub open spec fn host_summary(
    host: Seq<char>,
    primary: Seq<char>,
    ipv4: Option<Seq<Seq<char>>>,
    ipv6: Option<Seq<Seq<char>>>,
) -> NSARecordsView {
    NSARecordsView {
        nsdomain: host,
        operational: ipv4 is Some || ipv6 is Some,
        ipv4available: addresses(ipv4).len() > 0,
        ipv6available: addresses(ipv6).len() > 0,
        ipv4_addresses: addresses(ipv4),
        ipv6_addresses: addresses(ipv6),
        referral_ns_soa: refers(host, primary),
    }
}

/// The entry for one address, from what its four questions gave. An
/// address is operational, and speaks UDP, where it answered for the
/// domain.
pub open spec fn address_entry(
    address: Seq<char>,
    primary: Seq<char>,
    tcp: bool,
    authoritative: bool,
    recursive: bool,
    ptr: Seq<char>,
) -> NSAddressesView {
    NSAddressesView {
        ip: address,
        ptr,
        referral_ns_soa: refers(ptr, primary),
        operational: authoritative,
        authoritative,
        recursive,
        udp: authoritative,
        tcp,
    }
}

impl NsProbeView {
    /// The first state of a probe of `domain`.
    pub open spec fn start(domain: Seq<char>) -> NsProbeView {
        NsProbeView {
            domain,
            stage: NsStage::Soa,
            soa: unknown_soa(),
            hosts: Seq::empty(),
            host: 0,
            ipv4: None,
            targets: Seq::empty(),
            target: 0,
            tcp: false,
            authoritative: false,
            recursive: false,
            records: Seq::empty(),
            nsaddresses: Seq::empty(),
        }
    }

    /// Whether the state has the nameserver and the address that its stage
    /// speaks of.
    pub open spec fn wf(self) -> bool {
        match self.stage {
            NsStage::Soa | NsStage::Ns => true,
            NsStage::Ipv4 | NsStage::Ipv6 => 0 <= self.host < self.hosts.len(),
            NsStage::Tcp | NsStage::Authority | NsStage::Recursion => {
                &&& 0 <= self.host < self.hosts.len()
                &&& 0 <= self.target < self.targets.len()
            },
            NsStage::Ptr => {
                &&& 0 <= self.host < self.hosts.len()
                &&& 0 <= self.target < self.targets.len()
                &&& self.targets[self.target].zone is Some
            },
        }
    }

    /// What the state needs answered.
    pub open spec fn query(self) -> QueryView {
        match self.stage {
            NsStage::Soa => lookup(self.domain, RecordType::SOA),
            NsStage::Ns => lookup(self.domain, RecordType::NS),
            NsStage::Ipv4 => lookup(self.hosts[self.host], RecordType::A),
            NsStage::Ipv6 => lookup(self.hosts[self.host], RecordType::AAAA),
            NsStage::Tcp => connect(self.targets[self.target].address),
            NsStage::Authority => pinned(
                self.targets[self.target].address,
                self.domain,
                RecordType::A,
            ),
            NsStage::Recursion => pinned(
                self.targets[self.target].address,
                control_domain(),
                RecordType::A,
            ),
            NsStage::Ptr => lookup(self.targets[self.target].zone->0, RecordType::PTR),
        }
    }

    /// The report of a probe that has nothing left to ask.
    pub open spec fn report(self) -> NSRecordView {
        NSRecordView {
            name: self.domain,
            records: self.records,
            nsaddresses: self.nsaddresses,
            soa: self.soa,
        }
    }

    /// The state turned to the nameserver at position `host`; the end of
    /// the probe where there is none.
    pub open spec fn enter_host(self, host: int) -> Step<NsProbeView, NSRecordView> {
        if host < self.hosts.len() {
            Step::Next(NsProbeView { stage: NsStage::Ipv4, host, ..self })
        } else {
            Step::Done(Ok(self.report()))
        }
    }

    /// The state turned to the address at position `target`; where the
    /// current nameserver has none, the state turned to the next
    /// nameserver.
    pub open spec fn enter_target(self, target: int) -> Step<NsProbeView, NSRecordView> {
        if target < self.targets.len() {
            Step::Next(
                NsProbeView {
                    stage: NsStage::Tcp,
                    target,
                    tcp: false,
                    authoritative: false,
                    recursive: false,
                    ..self
                },
            )
        } else {
            self.enter_host(self.host + 1)
        }
    }

    /// The state after the current address got its entry, with `ptr` as
    /// the name of its reverse zone.
    pub open spec fn finish_target(self, ptr: Seq<char>) -> Step<NsProbeView, NSRecordView> {
        let entry = address_entry(
            self.targets[self.target].address,
            self.soa.primary_ns,
            self.tcp,
            self.authoritative,
            self.recursive,
            ptr,
        );
        NsProbeView { nsaddresses: self.nsaddresses.push(entry), ..self }.enter_target(
            self.target + 1,
        )
    }

    /// Where the probe stands after `reply` answered its query.
    pub open spec fn step(self, reply: Option<Seq<Seq<char>>>) -> Step<NsProbeView, NSRecordView> {
        match self.stage {
            NsStage::Soa => Step::Next(
                NsProbeView { stage: NsStage::Ns, soa: soa_from(reply), ..self },
            ),
            NsStage::Ns => match reply {
                None => Step::Done(Err(CheckError::NoNsRecords)),
                Some(records) => NsProbeView { hosts: heads(records), ..self }.enter_host(0),
            },
            NsStage::Ipv4 => Step::Next(NsProbeView { stage: NsStage::Ipv6, ipv4: reply, ..self }),
            NsStage::Ipv6 => NsProbeView {
                records: self.records.push(
                    host_summary(self.hosts[self.host], self.soa.primary_ns, self.ipv4, reply),
                ),
                targets: targets_of(addresses(self.ipv4), addresses(reply)),
                ..self
            }.enter_target(0),
            NsStage::Tcp => Step::Next(
                NsProbeView { stage: NsStage::Authority, tcp: reply is Some, ..self },
            ),
            NsStage::Authority => Step::Next(
                NsProbeView { stage: NsStage::Recursion, authoritative: reply is Some, ..self },
            ),
            NsStage::Recursion => {
                let told = NsProbeView { recursive: reply is Some, ..self };
                if self.targets[self.target].zone is Some {
                    Step::Next(NsProbeView { stage: NsStage::Ptr, ..told })
                } else {
                    told.finish_target(Seq::empty())
                }
            },
            NsStage::Ptr => self.finish_target(ptr_name(reply)),
        }
    }
}

/// The addresses that the reply to an address query holds.
fn reply_addresses(reply: &Reply) -> (out: Vec<String>)
    ensures
        texts(out@) == addresses(reply@),
{
    match reply {
        Reply::Records(records) => record_heads(records),
        Reply::Failure => {
            let out: Vec<String> = Vec::new();
            proof {
                assert(texts(out@) =~= Seq::<Seq<char>>::empty());
            }
            out
        },
    }
}

/// Whether `name` is the primary nameserver.
fn is_primary(name: &String, primary: &String) -> (out: bool)
    ensures
        out == refers(name@, primary@),
{
    !primary.as_str().is_empty() && *name == *primary
}

/// Adds the IPv4 addresses `found` to `targets`.
fn push_ipv4_targets(targets: &mut Vec<Target>, found: &Vec<String>)
    ensures
        views(final(targets)@) == views(old(targets)@) + Seq::new(
            found.len() as nat,
            |i: int| ipv4_target(texts(found@)[i]),
        ),
{
    let ghost before = views(targets@);
    let ghost all = Seq::new(found.len() as nat, |i: int| ipv4_target(texts(found@)[i]));
    let mut i: usize = 0;
    while i < found.len()
        invariant
            i <= found.len(),
            all == Seq::new(found.len() as nat, |i: int| ipv4_target(texts(found@)[i])),
            views(targets@) == before + all.take(i as int),
        decreases found.len() - i,
    {
        let target: Target = Target {
            address: found[i].clone(),
            zone: Some(ipv4_to_reverse_zone(found[i].as_str())),
        };
        proof {
            assert(views(targets@.push(target)) =~= views(targets@).push(target@));
            assert(all.take(i + 1) =~= all.take(i as int).push(all[i as int]));
            assert((before + all.take(i as int)).push(target@) =~= before + all.take(i + 1));
        }
        targets.push(target);
        i = i + 1;
    }
    proof {
        assert(all.take(found.len() as int) =~= all);
    }
}

/// Adds the IPv6 addresses `found` to `targets`.
fn push_ipv6_targets(targets: &mut Vec<Target>, found: &Vec<String>)
    ensures
        views(final(targets)@) == views(old(targets)@) + Seq::new(
            found.len() as nat,
            |i: int| ipv6_target(texts(found@)[i]),
        ),
{
    let ghost before = views(targets@);
    let ghost all = Seq::new(found.len() as nat, |i: int| ipv6_target(texts(found@)[i]));
    let mut i: usize = 0;
    while i < found.len()
        invariant
            i <= found.len(),
            all == Seq::new(found.len() as nat, |i: int| ipv6_target(texts(found@)[i])),
            views(targets@) == before + all.take(i as int),
        decreases found.len() - i,
    {
        let zone: Option<String> = match ipv6_to_reverse_zone(found[i].as_str()) {
            Ok(zone) => Some(zone),
            Err(_) => None,
        };
        let target: Target = Target { address: found[i].clone(), zone };
        proof {
            assert(views(targets@.push(target)) =~= views(targets@).push(target@));
            assert(all.take(i + 1) =~= all.take(i as int).push(all[i as int]));
            assert((before + all.take(i as int)).push(target@) =~= before + all.take(i + 1));
        }
        targets.push(target);
        i = i + 1;
    }
    proof {
        assert(all.take(found.len() as int) =~= all);
    }
}

impl NsProbe {
    /// Every probe has the nameserver and the address that its stage
    /// speaks of.
    #[verifier::type_invariant]
    spec fn well_formed(self) -> bool {
        self@.wf()
    }

    /// Begins a probe of the nameservers of `domain`.
    pub fn new(domain: &str) -> (out: NsProbe)
        ensures
            out@ == NsProbeView::start(domain@),
            out@.wf(),
    {
        let state = NsState {
            domain: domain.to_owned(),
            stage: NsStage::Soa,
            soa: no_soa(),
            hosts: Vec::new(),
            host: 0,
            ipv4: Reply::Failure,
            targets: Vec::new(),
            target: 0,
            tcp: false,
            authoritative: false,
            recursive: false,
            records: Vec::new(),
            nsaddresses: Vec::new(),
        };
        proof {
            assert(state@.hosts =~= Seq::<Seq<char>>::empty());
            assert(state@.targets =~= Seq::<TargetView>::empty());
            assert(state@.records =~= Seq::<NSARecordsView>::empty());
            assert(state@.nsaddresses =~= Seq::<NSAddressesView>::empty());
        }
        NsProbe { state }
    }

    /// The query that the probe needs answered next.
    pub fn query(&self) -> (out: Query)
        ensures
            out@ == self@.query(),
            self@.wf(),
    {
        proof {
            use_type_invariant(self);
        }
        let state = &self.state;
        match state.stage {
            NsStage::Soa => Query::Lookup { name: state.domain.clone(), record_type: RecordType::SOA },
            NsStage::Ns => Query::Lookup { name: state.domain.clone(), record_type: RecordType::NS },
            NsStage::Ipv4 => Query::Lookup {
                name: state.hosts[state.host].clone(),
                record_type: RecordType::A,
            },
            NsStage::Ipv6 => Query::Lookup {
                name: state.hosts[state.host].clone(),
                record_type: RecordType::AAAA,
            },
            NsStage::Tcp => Query::Connect { address: state.targets[state.target].address.clone() },
            NsStage::Authority => Query::Pinned {
                server: state.targets[state.target].address.clone(),
                name: state.domain.clone(),
                record_type: RecordType::A,
            },
            NsStage::Recursion => Query::Pinned {
                server: state.targets[state.target].address.clone(),
                name: "internetstiftelsen.se".to_owned(),
                record_type: RecordType::A,
            },
            NsStage::Ptr => {
                let name: String = match &state.targets[state.target].zone {
                    Some(zone) => zone.clone(),
                    None => String::new(),
                };
                Query::Lookup { name, record_type: RecordType::PTR }
            },
        }
    }
}

impl NsState {
    /// The parts of `probe`.
    fn of(probe: NsProbe) -> (out: NsState)
        ensures
            out@ == probe@,
            out@.wf(),
    {
        proof {
            use_type_invariant(&probe);
        }
        probe.state
    }

    /// The probe that stands at this state.
    fn probe(self) -> (out: NsProbe)
        requires
            self@.wf(),
        ensures
            out@ == self@,
    {
        NsProbe { state: self }
    }

    /// Ends the probe.
    fn finish(self) -> (out: NSRecord)
        ensures
            out@ == self@.report(),
    {
        NSRecord {
            name: self.domain,
            records: self.records,
            nsaddresses: self.nsaddresses,
            soa: self.soa,
        }
    }

    /// Turns to the nameserver at position `host`, or ends the probe.
    fn enter_host(self, host: usize) -> (out: Step<NsProbe, NSRecord>)
        ensures
            out@ == self@.enter_host(host as int),
    {
        if host < self.hosts.len() {
            let mut next = self;
            next.stage = NsStage::Ipv4;
            next.host = host;
            Step::Next(next.probe())
        } else {
            Step::Done(Ok(self.finish()))
        }
    }

    /// Turns to the address at position `target`, or to the next
    /// nameserver.
    fn enter_target(self, target: usize) -> (out: Step<NsProbe, NSRecord>)
        requires
            self.host < self.hosts.len(),
        ensures
            out@ == self@.enter_target(target as int),
    {
        if target < self.targets.len() {
            let mut next = self;
            next.stage = NsStage::Tcp;
            next.target = target;
            next.tcp = false;
            next.authoritative = false;
            next.recursive = false;
            Step::Next(next.probe())
        } else {
            let host: usize = self.host + 1;
            self.enter_host(host)
        }
    }

    /// Writes the entry of the current address and turns to the next.
    fn finish_target(self, ptr: String) -> (out: Step<NsProbe, NSRecord>)
        requires
            self.host < self.hosts.len(),
            self.target < self.targets.len(),
        ensures
            out@ == self@.finish_target(ptr@),
    {
        let mut next = self;
        let referral: bool = is_primary(&ptr, &next.soa.primary_ns);
        let entry: NSAddresses = NSAddresses {
            ip: next.targets[next.target].address.clone(),
            ptr,
            referral_ns_soa: referral,
            operational: next.authoritative,
            authoritative: next.authoritative,
            recursive: next.recursive,
            udp: next.authoritative,
            tcp: next.tcp,
        };
        proof {
            assert(views(next.nsaddresses@.push(entry)) =~= views(next.nsaddresses@).push(entry@));
        }
        next.nsaddresses.push(entry);
        let target: usize = next.target + 1;
        next.enter_target(target)
    }
}

/// Takes a probe from the reply to its query to its next state, or to its
/// end: the report, or no report where the domain has no nameservers.
pub fn check_ns(probe: NsProbe, reply: Reply) -> (out: Step<NsProbe, NSRecord>)
    ensures
        out@ == probe@.step(reply@),
        probe@.wf(),
        out matches Step::Next(next) ==> next@.wf(),
{
    let mut next = NsState::of(probe);
    match next.stage {
        NsStage::Soa => {
            next.soa = match &reply {
                Reply::Records(records) => if records.len() > 0 {
                    soa_record(records[records.len() - 1].as_str())
                } else {
                    no_soa()
                },
                Reply::Failure => no_soa(),
            };
            next.stage = NsStage::Ns;
            Step::Next(next.probe())
        },
        NsStage::Ns => match reply {
            Reply::Failure => Step::Done(Err(CheckError::NoNsRecords)),
            Reply::Records(records) => {
                next.hosts = record_heads(&records);
                next.enter_host(0)
            },
        },
        NsStage::Ipv4 => {
            next.ipv4 = reply;
            next.stage = NsStage::Ipv6;
            Step::Next(next.probe())
        },
        NsStage::Ipv6 => {
            let ipv4: Vec<String> = reply_addresses(&next.ipv4);
            let ipv6: Vec<String> = reply_addresses(&reply);
            let mut targets: Vec<Target> = Vec::new();
            proof {
                assert(views(targets@) =~= Seq::<TargetView>::empty());
            }
            push_ipv4_targets(&mut targets, &ipv4);
            push_ipv6_targets(&mut targets, &ipv6);
            proof {
                assert(views(targets@) =~= targets_of(addresses(next.ipv4@), addresses(reply@)));
            }
            let host: String = next.hosts[next.host].clone();
            let summary: NSARecords = NSARecords {
                referral_ns_soa: is_primary(&host, &next.soa.primary_ns),
                nsdomain: host,
                operational: answered(&next.ipv4) || answered(&reply),
                ipv4available: ipv4.len() > 0,
                ipv6available: ipv6.len() > 0,
                ipv4_addresses: ipv4,
                ipv6_addresses: ipv6,
            };
            proof {
                assert(views(summary.ipv4_addresses@) =~= texts(summary.ipv4_addresses@));
                assert(views(summary.ipv6_addresses@) =~= texts(summary.ipv6_addresses@));
                assert(views(next.records@.push(summary)) =~= views(next.records@).push(summary@));
            }
            next.records.push(summary);
            next.targets = targets;
            next.enter_target(0)
        },
        NsStage::Tcp => {
            next.tcp = answered(&reply);
            next.stage = NsStage::Authority;
            Step::Next(next.probe())
        },
        NsStage::Authority => {
            next.authoritative = answered(&reply);
            next.stage = NsStage::Recursion;
            Step::Next(next.probe())
        },
        NsStage::Recursion => {
            next.recursive = answered(&reply);
            if next.targets[next.target].zone.is_some() {
                next.stage = NsStage::Ptr;
                Step::Next(next.probe())
            } else {
                next.finish_target(String::new())
            }
        },
        NsStage::Ptr => {
            let ptr: String = match &reply {
                Reply::Records(records) => last_record_head(records),
                Reply::Failure => String::new(),
            };
            next.finish_target(ptr)
        },
    }
}

} // verus!

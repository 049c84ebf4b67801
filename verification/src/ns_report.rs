//! What a probe of the nameservers comes to.
//!
//! [`ns_report`] is the report on a domain, and [`ns_plan`] the queries
//! that lead to it, in a network that answers every query in one way. The
//! probe of [`crate::ns`], run against such a network, ends with that
//! report and asks those queries: [`probe_gives_report`],
//! [`probe_asks_plan`].

use vstd::prelude::*;
use crate::ns::{
    address_entry, addresses, control_domain, host_summary, ptr_name, refers, targets_of,
    NsProbeView, NsStage, TargetView,
};
use crate::query::{connect, lookup, pinned, QueryView, RecordType, Resolver, Step};
use crate::records::{heads, soa_from};
use crate::types::{CheckError, NSARecordsView, NSAddressesView, NSRecordView};

verus! {

/// The entry of `target`, as `net` answers its four questions.
pub open spec fn probe_of(
    net: Resolver,
    domain: Seq<char>,
    primary: Seq<char>,
    target: TargetView,
) -> NSAddressesView {
    address_entry(
        target.address,
        primary,
        net(connect(target.address)) is Some,
        net(pinned(target.address, domain, RecordType::A)) is Some,
        net(pinned(target.address, control_domain(), RecordType::A)) is Some,
        match target.zone {
            Some(zone) => ptr_name(net(lookup(zone, RecordType::PTR))),
            None => Seq::empty(),
        },
    )
}

/// The addresses of `host`, as `net` gives them.
pub open spec fn host_targets(net: Resolver, host: Seq<char>) -> Seq<TargetView> {
    targets_of(
        addresses(net(lookup(host, RecordType::A))),
        addresses(net(lookup(host, RecordType::AAAA))),
    )
}

/// The entries of the addresses of `host`.
pub open spec fn host_probes(
    net: Resolver,
    domain: Seq<char>,
    primary: Seq<char>,
    host: Seq<char>,
) -> Seq<NSAddressesView> {
    let targets = host_targets(net, host);
    Seq::new(targets.len(), |i: int| probe_of(net, domain, primary, targets[i]))
}

/// The entries of the addresses of the first `n` of `hosts`, nameserver by
/// nameserver.
pub open spec fn probes_upto(
    net: Resolver,
    domain: Seq<char>,
    primary: Seq<char>,
    hosts: Seq<Seq<char>>,
    n: int,
) -> Seq<NSAddressesView>
    decreases n,
{
    if n <= 0 || n > hosts.len() {
        Seq::empty()
    } else {
        probes_upto(net, domain, primary, hosts, n - 1) + host_probes(
            net,
            domain,
            primary,
            hosts[n - 1],
        )
    }
}

/// The summary of `host`, as `net` answers its two address queries.
pub open spec fn summary_of(net: Resolver, primary: Seq<char>, host: Seq<char>) -> NSARecordsView {
    host_summary(
        host,
        primary,
        net(lookup(host, RecordType::A)),
        net(lookup(host, RecordType::AAAA)),
    )
}

/// The summaries of `hosts`.
pub open spec fn summaries(net: Resolver, primary: Seq<char>, hosts: Seq<Seq<char>>) -> Seq<
    NSARecordsView,
> {
    Seq::new(hosts.len(), |i: int| summary_of(net, primary, hosts[i]))
}

/// The report on the nameservers of `domain` in the network `net`: none
/// where the NS query has no answer; else one summary for each nameserver
/// and one entry for each address of each, held against the start of
/// authority that the SOA query gave.
pub open spec fn ns_report(net: Resolver, domain: Seq<char>) -> Result<NSRecordView, CheckError> {
    let soa = soa_from(net(lookup(domain, RecordType::SOA)));
    match net(lookup(domain, RecordType::NS)) {
        None => Err(CheckError::NoNsRecords),
        Some(records) => Ok(
            NSRecordView {
                name: domain,
                records: summaries(net, soa.primary_ns, heads(records)),
                nsaddresses: probes_upto(
                    net,
                    domain,
                    soa.primary_ns,
                    heads(records),
                    heads(records).len() as int,
                ),
                soa,
            },
        ),
    }
}

/// The queries that are put to `target`: the connection, the domain, the
/// control domain, and the reverse zone where the address has one.
pub open spec fn target_queries(domain: Seq<char>, target: TargetView) -> Seq<QueryView> {
    let asked = seq![
        connect(target.address),
        pinned(target.address, domain, RecordType::A),
        pinned(target.address, control_domain(), RecordType::A),
    ];
    match target.zone {
        Some(zone) => asked.push(lookup(zone, RecordType::PTR)),
        None => asked,
    }
}

/// The queries that are put to the targets from position `from` on.
pub open spec fn targets_queries(domain: Seq<char>, targets: Seq<TargetView>, from: int) -> Seq<
    QueryView,
>
    decreases targets.len() - from,
{
    if 0 <= from < targets.len() {
        target_queries(domain, targets[from]) + targets_queries(domain, targets, from + 1)
    } else {
        Seq::empty()
    }
}

/// The queries that are asked about the nameserver `host`: its two
/// address queries, then the queries of each of its addresses.
pub open spec fn host_queries(net: Resolver, domain: Seq<char>, host: Seq<char>) -> Seq<
    QueryView,
> {
    seq![lookup(host, RecordType::A), lookup(host, RecordType::AAAA)] + targets_queries(
        domain,
        host_targets(net, host),
        0,
    )
}

/// The queries that are asked about the nameservers from position `from`
/// on.
pub open spec fn hosts_queries(
    net: Resolver,
    domain: Seq<char>,
    hosts: Seq<Seq<char>>,
    from: int,
) -> Seq<QueryView>
    decreases hosts.len() - from,
{
    if 0 <= from < hosts.len() {
        host_queries(net, domain, hosts[from]) + hosts_queries(net, domain, hosts, from + 1)
    } else {
        Seq::empty()
    }
}

/// The queries of a probe of `domain` in the network `net`, in order.
pub open spec fn ns_plan(net: Resolver, domain: Seq<char>) -> Seq<QueryView> {
    seq![lookup(domain, RecordType::SOA), lookup(domain, RecordType::NS)] + (match net(
        lookup(domain, RecordType::NS),
    ) {
        None => Seq::empty(),
        Some(records) => hosts_queries(net, domain, heads(records), 0),
    })
}

/// How far a stage is from the nameservers: 2 before the start of
/// authority is known, 1 before the nameservers are, 0 after.
pub open spec fn zone_rank(stage: NsStage) -> int {
    match stage {
        NsStage::Soa => 2,
        NsStage::Ns => 1,
        _ => 0,
    }
}

/// How far a stage is from the addresses of the current nameserver.
pub open spec fn host_rank(stage: NsStage) -> int {
    match stage {
        NsStage::Ipv4 => 2,
        NsStage::Ipv6 => 1,
        _ => 0,
    }
}

/// How many questions the current address has still to be asked after
/// this one.
pub open spec fn probe_rank(stage: NsStage) -> int {
    match stage {
        NsStage::Tcp => 3,
        NsStage::Authority => 2,
        NsStage::Recursion => 1,
        _ => 0,
    }
}

/// The outcome of the probe that stands at `state`, every query answered
/// by `net`.
pub open spec fn ns_run(net: Resolver, state: NsProbeView) -> Result<NSRecordView, CheckError>
    decreases
            zone_rank(state.stage),
            state.hosts.len() - state.host,
            host_rank(state.stage),
            state.targets.len() - state.target,
            probe_rank(state.stage),
    when state.wf()
{
    match state.step(net(state.query())) {
        Step::Next(next) => ns_run(net, next),
        Step::Done(outcome) => outcome,
    }
}

/// The queries that the probe that stands at `state` asks, from the one of
/// `state` on, every query answered by `net`.
pub open spec fn ns_queries(net: Resolver, state: NsProbeView) -> Seq<QueryView>
    decreases
            zone_rank(state.stage),
            state.hosts.len() - state.host,
            host_rank(state.stage),
            state.targets.len() - state.target,
            probe_rank(state.stage),
    when state.wf()
{
    match state.step(net(state.query())) {
        Step::Next(next) => seq![state.query()] + ns_queries(net, next),
        Step::Done(outcome) => seq![state.query()],
    }
}

impl NsProbeView {
    /// Whether the state holds the start of authority and the nameservers
    /// that `net` gives.
    pub open spec fn knows_zone(self, net: Resolver) -> bool {
        &&& self.soa == soa_from(net(lookup(self.domain, RecordType::SOA)))
        &&& net(lookup(self.domain, RecordType::NS)) is Some
        &&& self.hosts == heads(net(lookup(self.domain, RecordType::NS))->0)
    }

    /// Whether the state has recorded the first `n` nameservers, and
    /// nothing else, as `net` gives them.
    pub open spec fn between_hosts(self, net: Resolver, n: int) -> bool {
        &&& self.knows_zone(net)
        &&& 0 <= n <= self.hosts.len()
        &&& self.records == summaries(net, self.soa.primary_ns, self.hosts).take(n)
        &&& self.nsaddresses == probes_upto(
            net,
            self.domain,
            self.soa.primary_ns,
            self.hosts,
            n,
        )
    }

    /// Whether the state has recorded the nameservers before the current
    /// one, the summary of the current one and its first `n` addresses,
    /// and nothing else, as `net` gives them.
    pub open spec fn within_host(self, net: Resolver, n: int) -> bool {
        &&& self.knows_zone(net)
        &&& 0 <= self.host < self.hosts.len()
        &&& self.records == summaries(net, self.soa.primary_ns, self.hosts).take(self.host + 1)
        &&& self.targets == host_targets(net, self.hosts[self.host])
        &&& 0 <= n <= self.targets.len()
        &&& self.nsaddresses == probes_upto(
            net,
            self.domain,
            self.soa.primary_ns,
            self.hosts,
            self.host,
        ) + host_probes(net, self.domain, self.soa.primary_ns, self.hosts[self.host]).take(n)
    }

    /// Whether everything that the state holds is what `net` answers to
    /// the queries that led to it.
    pub open spec fn agrees(self, net: Resolver) -> bool {
        let address = self.targets[self.target].address;
        let tcp = net(connect(address)) is Some;
        let authoritative = net(pinned(address, self.domain, RecordType::A)) is Some;
        let recursive = net(pinned(address, control_domain(), RecordType::A)) is Some;
        match self.stage {
            NsStage::Soa => self.records.len() == 0 && self.nsaddresses.len() == 0,
            NsStage::Ns => {
                &&& self.soa == soa_from(net(lookup(self.domain, RecordType::SOA)))
                &&& self.records.len() == 0
                &&& self.nsaddresses.len() == 0
            },
            NsStage::Ipv4 => self.between_hosts(net, self.host),
            NsStage::Ipv6 => {
                &&& self.between_hosts(net, self.host)
                &&& self.ipv4 == net(lookup(self.hosts[self.host], RecordType::A))
            },
            NsStage::Tcp => self.within_host(net, self.target),
            NsStage::Authority => self.within_host(net, self.target) && self.tcp == tcp,
            NsStage::Recursion => {
                &&& self.within_host(net, self.target)
                &&& self.tcp == tcp
                &&& self.authoritative == authoritative
            },
            NsStage::Ptr => {
                &&& self.within_host(net, self.target)
                &&& self.tcp == tcp
                &&& self.authoritative == authoritative
                &&& self.recursive == recursive
            },
        }
    }

    /// Whether `step` leads on as `net` has it: to a state that agrees
    /// with `net`, or to the report of `net`.
    pub open spec fn leads_on(self, net: Resolver, step: Step<NsProbeView, NSRecordView>) -> bool {
        match step {
            Step::Next(next) => next.wf() && next.agrees(net) && next.domain == self.domain,
            Step::Done(outcome) => outcome == ns_report(net, self.domain),
        }
    }

    /// The queries that the probe is to ask from this state on, as `net`
    /// has it.
    pub open spec fn ahead(self, net: Resolver) -> Seq<QueryView> {
        let later = hosts_queries(net, self.domain, self.hosts, self.host + 1);
        let rest = targets_queries(self.domain, self.targets, self.target + 1) + later;
        let mine = target_queries(self.domain, self.targets[self.target]);
        match self.stage {
            NsStage::Soa => ns_plan(net, self.domain),
            NsStage::Ns => ns_plan(net, self.domain).skip(1),
            NsStage::Ipv4 => hosts_queries(net, self.domain, self.hosts, self.host),
            NsStage::Ipv6 => host_queries(net, self.domain, self.hosts[self.host]).skip(1) + later,
            NsStage::Tcp => mine + rest,
            NsStage::Authority => mine.skip(1) + rest,
            NsStage::Recursion => mine.skip(2) + rest,
            NsStage::Ptr => mine.skip(3) + rest,
        }
    }
}

proof fn lemma_enter_host(net: Resolver, state: NsProbeView, host: int)
    requires
        state.between_hosts(net, host),
    ensures
        state.leads_on(net, state.enter_host(host)),
{
    if host < state.hosts.len() {
    } else {
        let all = summaries(net, state.soa.primary_ns, state.hosts);
        assert(all.take(host) =~= all);
    }
}

proof fn lemma_enter_target(net: Resolver, state: NsProbeView, target: int)
    requires
        state.within_host(net, target),
    ensures
        state.leads_on(net, state.enter_target(target)),
{
    if target < state.targets.len() {
    } else {
        let probes = host_probes(net, state.domain, state.soa.primary_ns, state.hosts[state.host]);
        assert(probes.take(target) =~= probes);
        lemma_enter_host(net, state, state.host + 1);
    }
}

proof fn lemma_finish_target(net: Resolver, state: NsProbeView, ptr: Seq<char>)
    requires
        state.within_host(net, state.target),
        state.target < state.targets.len(),
        address_entry(
            state.targets[state.target].address,
            state.soa.primary_ns,
            state.tcp,
            state.authoritative,
            state.recursive,
            ptr,
        ) == probe_of(net, state.domain, state.soa.primary_ns, state.targets[state.target]),
    ensures
        state.leads_on(net, state.finish_target(ptr)),
{
    let entry = probe_of(net, state.domain, state.soa.primary_ns, state.targets[state.target]);
    let told = NsProbeView { nsaddresses: state.nsaddresses.push(entry), ..state };
    let probes = host_probes(net, state.domain, state.soa.primary_ns, state.hosts[state.host]);
    let before = probes_upto(net, state.domain, state.soa.primary_ns, state.hosts, state.host);
    assert(probes.take(state.target + 1) =~= probes.take(state.target).push(entry));
    assert((before + probes.take(state.target)).push(entry) =~= before + probes.take(
        state.target + 1,
    ));
    lemma_enter_target(net, told, state.target + 1);
}

/// Every reply taken from `net`, a state that agrees with `net` is taken
/// to one that does, or to the report of `net`.
pub proof fn lemma_ns_step(net: Resolver, state: NsProbeView)
    requires
        state.wf(),
        state.agrees(net),
    ensures
        state.leads_on(net, state.step(net(state.query()))),
{
    let reply = net(state.query());
    match state.stage {
        NsStage::Soa => {},
        NsStage::Ns => {
            match reply {
                None => {},
                Some(records) => {
                    let told = NsProbeView { hosts: heads(records), ..state };
                    assert(told.records =~= summaries(net, told.soa.primary_ns, told.hosts).take(
                        0,
                    ));
                    assert(told.nsaddresses =~= Seq::<NSAddressesView>::empty());
                    lemma_enter_host(net, told, 0);
                },
            }
        },
        NsStage::Ipv4 => {},
        NsStage::Ipv6 => {
            let all = summaries(net, state.soa.primary_ns, state.hosts);
            let told = NsProbeView {
                records: state.records.push(
                    host_summary(
                        state.hosts[state.host],
                        state.soa.primary_ns,
                        state.ipv4,
                        reply,
                    ),
                ),
                targets: targets_of(addresses(state.ipv4), addresses(reply)),
                ..state
            };
            assert(all.take(state.host + 1) =~= all.take(state.host).push(all[state.host]));
            let probes = host_probes(
                net,
                state.domain,
                state.soa.primary_ns,
                state.hosts[state.host],
            );
            assert(state.nsaddresses + probes.take(0) =~= state.nsaddresses);
            lemma_enter_target(net, told, 0);
        },
        NsStage::Tcp => {},
        NsStage::Authority => {},
        NsStage::Recursion => {
            let told = NsProbeView { recursive: reply is Some, ..state };
            if state.targets[state.target].zone is Some {
            } else {
                lemma_finish_target(net, told, Seq::empty());
            }
        },
        NsStage::Ptr => {
            lemma_finish_target(net, state, ptr_name(reply));
        },
    }
}

/// From a state that agrees with `net`, the probe ends with the report of
/// `net`.
pub proof fn lemma_ns_run(net: Resolver, state: NsProbeView)
    requires
        state.wf(),
        state.agrees(net),
    ensures
        ns_run(net, state) == ns_report(net, state.domain),
    decreases
            zone_rank(state.stage),
            state.hosts.len() - state.host,
            host_rank(state.stage),
            state.targets.len() - state.target,
            probe_rank(state.stage),
{
    lemma_ns_step(net, state);
    match state.step(net(state.query())) {
        Step::Next(next) => {
            lemma_ns_run(net, next);
        },
        Step::Done(outcome) => {},
    }
}

/// A probe of `domain` that has every query answered by `net` ends with
/// the report of `net` on `domain`.
pub proof fn probe_gives_report(net: Resolver, domain: Seq<char>)
    ensures
        ns_run(net, NsProbeView::start(domain)) == ns_report(net, domain),
{
    lemma_ns_run(net, NsProbeView::start(domain));
}

proof fn lemma_ahead_enter_host(net: Resolver, state: NsProbeView, host: int)
    requires
        0 <= host,
    ensures
        match state.enter_host(host) {
            Step::Next(next) => next.ahead(net) == hosts_queries(
                net,
                state.domain,
                state.hosts,
                host,
            ),
            Step::Done(outcome) => hosts_queries(net, state.domain, state.hosts, host)
                == Seq::<QueryView>::empty(),
        },
{
}

proof fn lemma_ahead_enter_target(net: Resolver, state: NsProbeView, target: int)
    requires
        0 <= target,
        0 <= state.host,
    ensures
        match state.enter_target(target) {
            Step::Next(next) => next.ahead(net) == targets_queries(
                state.domain,
                state.targets,
                target,
            ) + hosts_queries(net, state.domain, state.hosts, state.host + 1),
            Step::Done(outcome) => targets_queries(state.domain, state.targets, target)
                + hosts_queries(net, state.domain, state.hosts, state.host + 1) == Seq::<
                QueryView,
            >::empty(),
        },
{
    let later = hosts_queries(net, state.domain, state.hosts, state.host + 1);
    if target < state.targets.len() {
        let next = state.enter_target(target)->Next_0;
        let mine = target_queries(state.domain, state.targets[target]);
        let rest = targets_queries(state.domain, state.targets, target + 1);
        assert(mine + (rest + later) =~= (mine + rest) + later);
    } else {
        lemma_ahead_enter_host(net, state, state.host + 1);
        assert(Seq::<QueryView>::empty() + later =~= later);
    }
}

/// Whether the query of `state` and the queries ahead of the next state
/// are the queries ahead of `state`.
pub open spec fn asks_on(net: Resolver, state: NsProbeView) -> bool {
    match state.step(net(state.query())) {
        Step::Next(next) => seq![state.query()] + next.ahead(net) == state.ahead(net),
        Step::Done(outcome) => seq![state.query()] == state.ahead(net),
    }
}

proof fn lemma_asks_on_zone(net: Resolver, state: NsProbeView)
    requires
        state.stage == NsStage::Soa || state.stage == NsStage::Ns,
    ensures
        asks_on(net, state),
{
    let query = state.query();
    let reply = net(query);
    let plan = ns_plan(net, state.domain);
    if state.stage == NsStage::Soa {
        assert(seq![query] + plan.skip(1) =~= plan);
    } else {
        match reply {
            None => {
                assert(seq![query] =~= plan.skip(1));
            },
            Some(records) => {
                let told = NsProbeView { hosts: heads(records), ..state };
                lemma_ahead_enter_host(net, told, 0);
                let hosts = hosts_queries(net, state.domain, heads(records), 0);
                assert(seq![query] + hosts =~= plan.skip(1));
            },
        }
    }
}

proof fn lemma_asks_on_host(net: Resolver, state: NsProbeView)
    requires
        state.stage == NsStage::Ipv4 || state.stage == NsStage::Ipv6,
        state.wf(),
        state.agrees(net),
    ensures
        asks_on(net, state),
{
    let query = state.query();
    let reply = net(query);
    let later = hosts_queries(net, state.domain, state.hosts, state.host + 1);
    let mine = host_queries(net, state.domain, state.hosts[state.host]);
    if state.stage == NsStage::Ipv4 {
        assert(seq![query] + (mine.skip(1) + later) =~= mine + later);
    } else {
        let told = NsProbeView {
            records: state.records.push(
                host_summary(state.hosts[state.host], state.soa.primary_ns, state.ipv4, reply),
            ),
            targets: targets_of(addresses(state.ipv4), addresses(reply)),
            ..state
        };
        lemma_ahead_enter_target(net, told, 0);
        let probes = targets_queries(state.domain, told.targets, 0);
        assert(seq![query] + (probes + later) =~= mine.skip(1) + later);
        assert(seq![query] + probes =~= mine.skip(1));
    }
}

proof fn lemma_asks_on_target(net: Resolver, state: NsProbeView)
    requires
        state.stage == NsStage::Tcp || state.stage == NsStage::Authority,
        state.wf(),
    ensures
        asks_on(net, state),
{
    let query = state.query();
    let later = hosts_queries(net, state.domain, state.hosts, state.host + 1);
    let rest = targets_queries(state.domain, state.targets, state.target + 1) + later;
    let mine = target_queries(state.domain, state.targets[state.target]);
    if state.stage == NsStage::Tcp {
        assert(seq![query] + (mine.skip(1) + rest) =~= mine + rest);
    } else {
        assert(seq![query] + (mine.skip(2) + rest) =~= mine.skip(1) + rest);
    }
}

proof fn lemma_asks_on_entry(net: Resolver, state: NsProbeView)
    requires
        state.stage == NsStage::Recursion || state.stage == NsStage::Ptr,
        state.wf(),
    ensures
        asks_on(net, state),
{
    let query = state.query();
    let reply = net(query);
    let later = hosts_queries(net, state.domain, state.hosts, state.host + 1);
    let rest = targets_queries(state.domain, state.targets, state.target + 1) + later;
    let mine = target_queries(state.domain, state.targets[state.target]);
    if state.stage == NsStage::Recursion && state.targets[state.target].zone is Some {
        assert(seq![query] + (mine.skip(3) + rest) =~= mine.skip(2) + rest);
    } else {
        let told = if state.stage == NsStage::Recursion {
            NsProbeView { recursive: reply is Some, ..state }
        } else {
            state
        };
        let ptr = if state.stage == NsStage::Recursion {
            Seq::empty()
        } else {
            ptr_name(reply)
        };
        let entry = address_entry(
            told.targets[told.target].address,
            told.soa.primary_ns,
            told.tcp,
            told.authoritative,
            told.recursive,
            ptr,
        );
        let pushed = NsProbeView { nsaddresses: told.nsaddresses.push(entry), ..told };
        assert(state.step(reply) == pushed.enter_target(state.target + 1));
        lemma_ahead_enter_target(net, pushed, state.target + 1);
        if state.stage == NsStage::Recursion {
            assert(seq![query] =~= mine.skip(2));
        } else {
            assert(seq![query] =~= mine.skip(3));
        }
    }
}

/// From a state that agrees with `net`, the probe asks the queries that
/// `net` calls for, and no others.
pub proof fn lemma_ns_queries(net: Resolver, state: NsProbeView)
    requires
        state.wf(),
        state.agrees(net),
    ensures
        ns_queries(net, state) == state.ahead(net),
    decreases
            zone_rank(state.stage),
            state.hosts.len() - state.host,
            host_rank(state.stage),
            state.targets.len() - state.target,
            probe_rank(state.stage),
{
    lemma_ns_step(net, state);
    match state.stage {
        NsStage::Soa | NsStage::Ns => lemma_asks_on_zone(net, state),
        NsStage::Ipv4 | NsStage::Ipv6 => lemma_asks_on_host(net, state),
        NsStage::Tcp | NsStage::Authority => lemma_asks_on_target(net, state),
        NsStage::Recursion | NsStage::Ptr => lemma_asks_on_entry(net, state),
    }
    match state.step(net(state.query())) {
        Step::Next(next) => {
            lemma_ns_queries(net, next);
        },
        Step::Done(outcome) => {},
    }
}

/// A probe of `domain` that has every query answered by `net` asks
/// exactly the queries of the plan of `net` for `domain`, in its order.
pub proof fn probe_asks_plan(net: Resolver, domain: Seq<char>)
    ensures
        ns_queries(net, NsProbeView::start(domain)) == ns_plan(net, domain),
{
    lemma_ns_queries(net, NsProbeView::start(domain));
}

/// For a domain whose NS query has no answer, the probe ends without a
/// report, and it has asked for the start of authority and the
/// nameservers only: no address was looked up and none was probed.
pub proof fn no_nameservers_no_probes(net: Resolver, domain: Seq<char>)
    requires
        net(lookup(domain, RecordType::NS)) is None,
    ensures
        ns_run(net, NsProbeView::start(domain)) == Err::<NSRecordView, CheckError>(
            CheckError::NoNsRecords,
        ),
        ns_queries(net, NsProbeView::start(domain)) == seq![
            lookup(domain, RecordType::SOA),
            lookup(domain, RecordType::NS),
        ],
{
    let first = NsProbeView::start(domain);
    let second = first.step(net(first.query()))->Next_0;
    assert(second.wf());
    assert(second.step(net(second.query())) == Step::<NsProbeView, NSRecordView>::Done(
        Err(CheckError::NoNsRecords),
    ));
    assert(ns_run(net, second) == Err::<NSRecordView, CheckError>(CheckError::NoNsRecords));
    assert(ns_queries(net, second) == seq![second.query()]);
    assert(ns_queries(net, first) =~= seq![first.query()] + ns_queries(net, second));
    assert(seq![first.query()] + seq![second.query()] =~= seq![
        lookup(domain, RecordType::SOA),
        lookup(domain, RecordType::NS),
    ]);
}

/// Every entry of the first `n` nameservers refers to the primary
/// nameserver exactly where the name of its reverse zone is the primary
/// nameserver and that is known.
pub proof fn lemma_entries_refer(
    net: Resolver,
    domain: Seq<char>,
    primary: Seq<char>,
    hosts: Seq<Seq<char>>,
    n: int,
)
    ensures
        forall|i: int|
            0 <= i < probes_upto(net, domain, primary, hosts, n).len() ==> (#[trigger] probes_upto(
                net,
                domain,
                primary,
                hosts,
                n,
            )[i]).referral_ns_soa == refers(
                probes_upto(net, domain, primary, hosts, n)[i].ptr,
                primary,
            ),
    decreases n,
{
    if n <= 0 || n > hosts.len() {
    } else {
        lemma_entries_refer(net, domain, primary, hosts, n - 1);
        let before = probes_upto(net, domain, primary, hosts, n - 1);
        let added = host_probes(net, domain, primary, hosts[n - 1]);
        let all = probes_upto(net, domain, primary, hosts, n);
        assert forall|i: int| 0 <= i < all.len() implies (#[trigger] all[i]).referral_ns_soa
            == refers(all[i].ptr, primary) by {
            if i < before.len() {
                assert(all[i] == before[i]);
            } else {
                assert(all[i] == added[i - before.len()]);
            }
        }
    }
}

/// In a report, an address refers to the primary nameserver exactly where
/// the start of authority names one and the reverse zone of the address
/// gives that name.
pub proof fn report_refers_by_ptr(net: Resolver, domain: Seq<char>, i: int)
    requires
        ns_report(net, domain) is Ok,
        0 <= i < ns_report(net, domain)->Ok_0.nsaddresses.len(),
    ensures
        ({
            let report = ns_report(net, domain)->Ok_0;
            report.nsaddresses[i].referral_ns_soa <==> report.soa.primary_ns.len() > 0
                && report.nsaddresses[i].ptr == report.soa.primary_ns
        }),
{
    let report = ns_report(net, domain)->Ok_0;
    let hosts = heads(net(lookup(domain, RecordType::NS))->0);
    lemma_entries_refer(net, domain, report.soa.primary_ns, hosts, hosts.len() as int);
}

/// In a report, a nameserver refers to the primary nameserver exactly
/// where the start of authority names one and it is the name of that
/// nameserver.
pub proof fn report_refers_by_name(net: Resolver, domain: Seq<char>, i: int)
    requires
        ns_report(net, domain) is Ok,
        0 <= i < ns_report(net, domain)->Ok_0.records.len(),
    ensures
        ({
            let report = ns_report(net, domain)->Ok_0;
            report.records[i].referral_ns_soa <==> report.soa.primary_ns.len() > 0
                && report.records[i].nsdomain == report.soa.primary_ns
        }),
{
}

/// An address whose PTR query has no answer, and one that has no reverse
/// zone, has the empty name and does not refer to the primary nameserver.
pub proof fn failed_ptr_never_refers(
    net: Resolver,
    domain: Seq<char>,
    primary: Seq<char>,
    target: TargetView,
)
    requires
        target.zone is Some ==> net(lookup(target.zone->0, RecordType::PTR)) is None,
    ensures
        probe_of(net, domain, primary, target).ptr == Seq::<char>::empty(),
        !probe_of(net, domain, primary, target).referral_ns_soa,
{
}

/// Two probes of one domain, in networks that answer every query alike,
/// end alike.
pub proof fn probe_is_repeatable(first: Resolver, second: Resolver, domain: Seq<char>)
    requires
        forall|query: QueryView| #[trigger] first(query) == second(query),
    ensures
        ns_run(first, NsProbeView::start(domain)) == ns_run(second, NsProbeView::start(domain)),
{
    assert(first =~= second);
}

} // verus!

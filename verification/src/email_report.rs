//! What a check of the mail exchangers comes to.
//!
//! [`mail_report`] is the report on a domain, and [`mail_plan`] the
//! queries that lead to it, in a network that answers every query in one
//! way. The check of [`crate::email`], run against such a network, ends
//! with that report and asks those queries: [`check_gives_report`].

use vstd::prelude::*;
use crate::email::{exchangers_of, value_of, ExchangerView, MailCheckView, MailStage};
use crate::query::{lookup, validated, QueryView, RecordType, Resolver, Step};
use crate::reverse::ipv4_reverse_zone;
use crate::types::{CheckError, MxView};

verus! {

/// The IPv4 address of the exchanger `name`, as `net` gives it.
pub open spec fn ipv4_of(net: Resolver, name: Seq<char>) -> Seq<char> {
    value_of(net(lookup(name, RecordType::A)))
}

/// The name in the reverse zone of `ipv4`, as `net` gives it; no name for
/// no address.
pub open spec fn reverse_name(net: Resolver, ipv4: Seq<char>) -> Seq<char> {
    if ipv4.len() > 0 {
        value_of(net(lookup(ipv4_reverse_zone(ipv4), RecordType::PTR)))
    } else {
        Seq::empty()
    }
}

/// The entry of `exchanger`, as `net` answers its questions.
pub open spec fn entry_of(net: Resolver, exchanger: ExchangerView) -> MxView {
    MxView {
        name: exchanger.name,
        ipv4: ipv4_of(net, exchanger.name),
        ipv6: value_of(net(lookup(exchanger.name, RecordType::AAAA))),
        ptr: reverse_name(net, ipv4_of(net, exchanger.name)),
        preference: exchanger.preference,
        dnssec: net(validated(exchanger.name, RecordType::DNSKEY)) is Some,
    }
}

/// The entries of `exchangers`.
pub open spec fn entries(net: Resolver, exchangers: Seq<ExchangerView>) -> Seq<MxView> {
    Seq::new(exchangers.len(), |i: int| entry_of(net, exchangers[i]))
}

/// The report on the mail exchangers of `domain` in the network `net`:
/// none where the MX query has no answer; else one entry for each MX
/// record, in the order of the records.
pub open spec fn mail_report(net: Resolver, domain: Seq<char>) -> Result<Seq<MxView>, CheckError> {
    match net(lookup(domain, RecordType::MX)) {
        None => Err(CheckError::NoMxRecords),
        Some(records) => Ok(entries(net, exchangers_of(records))),
    }
}

/// The queries that are asked about the exchanger `name`: its two address
/// queries, the reverse query where it has an IPv4 address, the validated
/// key query.
pub open spec fn exchanger_queries(net: Resolver, name: Seq<char>) -> Seq<QueryView> {
    let ipv4 = ipv4_of(net, name);
    if ipv4.len() > 0 {
        seq![
            lookup(name, RecordType::A),
            lookup(name, RecordType::AAAA),
            lookup(ipv4_reverse_zone(ipv4), RecordType::PTR),
            validated(name, RecordType::DNSKEY),
        ]
    } else {
        seq![
            lookup(name, RecordType::A),
            lookup(name, RecordType::AAAA),
            validated(name, RecordType::DNSKEY),
        ]
    }
}

/// The queries that are asked about the exchangers from position `from`
/// on.
pub open spec fn queries_from(net: Resolver, exchangers: Seq<ExchangerView>, from: int) -> Seq<
    QueryView,
>
    decreases exchangers.len() - from,
{
    if 0 <= from < exchangers.len() {
        exchanger_queries(net, exchangers[from].name) + queries_from(net, exchangers, from + 1)
    } else {
        Seq::empty()
    }
}

/// The queries of a check of `domain` in the network `net`, in order.
pub open spec fn mail_plan(net: Resolver, domain: Seq<char>) -> Seq<QueryView> {
    seq![lookup(domain, RecordType::MX)] + (match net(lookup(domain, RecordType::MX)) {
        None => Seq::empty(),
        Some(records) => queries_from(net, exchangers_of(records), 0),
    })
}

/// How many questions the current exchanger has still to be asked after
/// this one, at most.
pub open spec fn mail_rank(stage: MailStage) -> int {
    match stage {
        MailStage::Mx => 4,
        MailStage::Ipv4 => 3,
        MailStage::Ipv6 => 2,
        MailStage::Ptr => 1,
        MailStage::Dnssec => 0,
    }
}

/// 1 before the exchangers are known, 0 after.
pub open spec fn mail_zone_rank(stage: MailStage) -> int {
    if stage == MailStage::Mx {
        1
    } else {
        0
    }
}

/// The outcome of the check that stands at `state`, every query answered
/// by `net`.
pub open spec fn mail_run(net: Resolver, state: MailCheckView) -> Result<Seq<MxView>, CheckError>
    decreases mail_zone_rank(state.stage), state.exchangers.len() - state.index, mail_rank(
            state.stage,
        ),
    when state.wf()
{
    match state.step(net(state.query())) {
        Step::Next(next) => mail_run(net, next),
        Step::Done(outcome) => outcome,
    }
}

/// The queries that the check that stands at `state` asks, from the one of
/// `state` on, every query answered by `net`.
pub open spec fn mail_queries(net: Resolver, state: MailCheckView) -> Seq<QueryView>
    decreases mail_zone_rank(state.stage), state.exchangers.len() - state.index, mail_rank(
            state.stage,
        ),
    when state.wf()
{
    match state.step(net(state.query())) {
        Step::Next(next) => seq![state.query()] + mail_queries(net, next),
        Step::Done(outcome) => seq![state.query()],
    }
}

impl MailCheckView {
    /// Whether the state holds the exchangers that `net` gives, and the
    /// entries of those before the current one.
    pub open spec fn knows_exchangers(self, net: Resolver) -> bool {
        &&& net(lookup(self.domain, RecordType::MX)) is Some
        &&& self.exchangers == exchangers_of(net(lookup(self.domain, RecordType::MX))->0)
        &&& 0 <= self.index <= self.exchangers.len()
        &&& self.mx == entries(net, self.exchangers).take(self.index)
    }

    /// Whether everything that the state holds is what `net` answers to
    /// the queries that led to it.
    pub open spec fn agrees(self, net: Resolver) -> bool {
        let entry = entry_of(net, self.exchangers[self.index]);
        match self.stage {
            MailStage::Mx => self.mx.len() == 0,
            MailStage::Ipv4 => self.knows_exchangers(net),
            MailStage::Ipv6 => self.knows_exchangers(net) && self.ipv4 == entry.ipv4,
            MailStage::Ptr => {
                &&& self.knows_exchangers(net)
                &&& self.ipv4 == entry.ipv4
                &&& self.ipv6 == entry.ipv6
                &&& self.ipv4.len() > 0
            },
            MailStage::Dnssec => {
                &&& self.knows_exchangers(net)
                &&& self.ipv4 == entry.ipv4
                &&& self.ipv6 == entry.ipv6
                &&& self.ptr == entry.ptr
            },
        }
    }

    /// The queries that the current exchanger is still asked, from the one
    /// of the state on.
    pub open spec fn pending(self, net: Resolver) -> Seq<QueryView> {
        let all = exchanger_queries(net, self.exchangers[self.index].name);
        match self.stage {
            MailStage::Mx => Seq::empty(),
            MailStage::Ipv4 => all,
            MailStage::Ipv6 => all.skip(1),
            MailStage::Ptr => all.skip(2),
            MailStage::Dnssec => seq![all.last()],
        }
    }

    /// The queries that the check is to ask from this state on, as `net`
    /// has it.
    pub open spec fn ahead(self, net: Resolver) -> Seq<QueryView> {
        match self.stage {
            MailStage::Mx => mail_plan(net, self.domain),
            _ => self.pending(net) + queries_from(net, self.exchangers, self.index + 1),
        }
    }
}

/// From a state that agrees with `net`, the check ends with the report of
/// `net`, and asks on its way the queries that `net` calls for.
pub proof fn lemma_mail_run(net: Resolver, state: MailCheckView)
    requires
        state.wf(),
        state.agrees(net),
    ensures
        mail_run(net, state) == mail_report(net, state.domain),
        mail_queries(net, state) == state.ahead(net),
    decreases mail_zone_rank(state.stage), state.exchangers.len() - state.index, mail_rank(
            state.stage,
        ),
{
    let reply = net(state.query());
    let all = exchanger_queries(net, state.exchangers[state.index].name);
    let later = queries_from(net, state.exchangers, state.index + 1);
    match state.step(reply) {
        Step::Next(next) => {
            match state.stage {
                MailStage::Mx => {
                    assert(next.mx =~= entries(net, next.exchangers).take(0));
                    lemma_mail_run(net, next);
                    assert(seq![state.query()] + next.ahead(net) =~= state.ahead(net));
                },
                MailStage::Ipv4 => {
                    lemma_mail_run(net, next);
                    assert(seq![state.query()] + (all.skip(1) + later) =~= all + later);
                },
                MailStage::Ipv6 => {
                    lemma_mail_run(net, next);
                    if state.ipv4.len() > 0 {
                        assert(seq![state.query()] + (all.skip(2) + later) =~= all.skip(1)
                            + later);
                    } else {
                        assert(seq![state.query()] + (seq![all.last()] + later) =~= all.skip(1)
                            + later);
                    }
                },
                MailStage::Ptr => {
                    lemma_mail_run(net, next);
                    assert(seq![state.query()] + (seq![all.last()] + later) =~= all.skip(2)
                        + later);
                },
                MailStage::Dnssec => {
                    let found = entries(net, state.exchangers);
                    assert(found.take(state.index + 1) =~= found.take(state.index).push(
                        found[state.index],
                    ));
                    lemma_mail_run(net, next);
                    assert(seq![state.query()] + next.ahead(net) =~= seq![all.last()] + later);
                },
            }
        },
        Step::Done(outcome) => {
            match state.stage {
                MailStage::Mx => {
                    match reply {
                        None => {
                            assert(seq![state.query()] =~= mail_plan(net, state.domain));
                        },
                        Some(records) => {
                            assert(state.mx =~= entries(net, exchangers_of(records)));
                            assert(seq![state.query()] =~= mail_plan(net, state.domain));
                        },
                    }
                },
                MailStage::Dnssec => {
                    let found = entries(net, state.exchangers);
                    assert(found.take(state.index + 1) =~= found.take(state.index).push(
                        found[state.index],
                    ));
                    assert(found.take(state.index + 1) =~= found);
                    assert(seq![state.query()] =~= seq![all.last()] + later);
                },
                _ => {},
            }
        },
    }
}

/// A check of `domain` that has every query answered by `net` ends with
/// the report of `net` on `domain`, and has asked exactly the queries of
/// the plan of `net` for `domain`.
pub proof fn check_gives_report(net: Resolver, domain: Seq<char>)
    ensures
        mail_run(net, MailCheckView::start(domain)) == mail_report(net, domain),
        mail_queries(net, MailCheckView::start(domain)) == mail_plan(net, domain),
{
    lemma_mail_run(net, MailCheckView::start(domain));
}

/// An exchanger without an IPv4 address has no reverse name, and is asked
/// three queries, none of them in a reverse zone.
pub proof fn no_address_no_reverse_query(net: Resolver, exchanger: ExchangerView)
    requires
        ipv4_of(net, exchanger.name).len() == 0,
    ensures
        entry_of(net, exchanger).ptr == Seq::<char>::empty(),
        exchanger_queries(net, exchanger.name) == seq![
            lookup(exchanger.name, RecordType::A),
            lookup(exchanger.name, RecordType::AAAA),
            validated(exchanger.name, RecordType::DNSKEY),
        ],
{
}

/// Two checks of one domain, in networks that answer every query alike,
/// end alike.
pub proof fn check_is_repeatable(first: Resolver, second: Resolver, domain: Seq<char>)
    requires
        forall|query: QueryView| #[trigger] first(query) == second(query),
    ensures
        mail_run(first, MailCheckView::start(domain)) == mail_run(
            second,
            MailCheckView::start(domain),
        ),
{
    assert(first =~= second);
}

} // verus!

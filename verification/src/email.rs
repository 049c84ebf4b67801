//! The mail readiness checker.
//!
//! The checker asks for the mail exchangers of a domain and then, for each
//! exchanger, for its addresses, for the name in the reverse zone of its
//! IPv4 address, and for the keys of its zone with DNSSEC validation
//! switched on.
//!
//! It is written as a machine: [`MailCheck::new`] is the first state,
//! [`MailCheck::query`] says what a state needs answered, and
//! [`check_email`] takes the reply to the next state or to the report.
//! What the report is, and which queries are asked, for a network that
//! answers every query in one way, is stated and proved in
//! [`crate::email_report`].

use vstd::prelude::*;
use crate::query::{answered, lookup, validated, Query, QueryView, RecordType, Reply, Step};
use crate::records::{
    first_record_value, first_value, mx_exchanger, mx_preference, mx_target,
};
use crate::reverse::{ipv4_reverse_zone, ipv4_to_reverse_zone};
use crate::text::texts;
use crate::types::{views, CheckError, Email, Mx, MxView, DNSSEC};

verus! {

/// The value that the reply to a query for one value gives: the last
/// token of its first record, nothing without an answer.
pub open spec fn value_of(reply: Option<Seq<Seq<char>>>) -> Seq<char> {
    match reply {
        Some(records) => first_value(records),
        None => Seq::empty(),
    }
}

/// The question that the checker has still to ask.
#[derive(Clone, Copy, Debug, PartialEq, Eq)]
pub enum MailStage {
    /// The mail exchangers of the domain.
    Mx,
    /// The IPv4 address of the current exchanger.
    Ipv4,
    /// The IPv6 address of the current exchanger.
    Ipv6,
    /// The name in the reverse zone of the IPv4 address.
    Ptr,
    /// The keys of the zone of the current exchanger.
    Dnssec,
}

/// A mail exchanger as its MX record names it.
#[derive(Clone, Debug, PartialEq, Eq)]
pub struct Exchanger {
    pub preference: i8,
    pub name: String,
}

pub struct ExchangerView {
    pub preference: i8,
    pub name: Seq<char>,
}

impl View for Exchanger {
    type V = ExchangerView;

    open spec fn view(&self) -> ExchangerView {
        ExchangerView { preference: self.preference, name: self.name@ }
    }
}

/// The exchangers that the records of an MX answer name.
pub open spec fn exchangers_of(records: Seq<Seq<char>>) -> Seq<ExchangerView> {
    Seq::new(
        records.len(),
        |i: int|
            ExchangerView {
                preference: mx_preference(records[i]),
                name: mx_exchanger(records[i]),
            },
    )
}

/// A check of the mail exchangers of one domain, between two queries.
#[derive(Debug, PartialEq, Eq)]
pub struct MailCheck {
    domain: String,
    stage: MailStage,
    exchangers: Vec<Exchanger>,
    index: usize,
    ipv4: String,
    ipv6: String,
    ptr: String,
    mx: Vec<Mx>,
}

pub struct MailCheckView {
    pub domain: Seq<char>,
    pub stage: MailStage,
    /// The exchangers of the domain.
    pub exchangers: Seq<ExchangerView>,
    /// The position of the current exchanger in `exchangers`.
    pub index: int,
    pub ipv4: Seq<char>,
    pub ipv6: Seq<char>,
    pub ptr: Seq<char>,
    pub mx: Seq<MxView>,
}

impl View for MailCheck {
    type V = MailCheckView;

    closed spec fn view(&self) -> MailCheckView {
        MailCheckView {
            domain: self.domain@,
            stage: self.stage,
            exchangers: views(self.exchangers@),
            index: self.index as int,
            ipv4: self.ipv4@,
            ipv6: self.ipv6@,
            ptr: self.ptr@,
            mx: views(self.mx@),
        }
    }
}

impl MailCheckView {
    /// The first state of a check of `domain`.
    pub open spec fn start(domain: Seq<char>) -> MailCheckView {
        MailCheckView {
            domain,
            stage: MailStage::Mx,
            exchangers: Seq::empty(),
            index: 0,
            ipv4: Seq::empty(),
            ipv6: Seq::empty(),
            ptr: Seq::empty(),
            mx: Seq::empty(),
        }
    }

    /// Whether the state has the exchanger that its stage speaks of.
    pub open spec fn wf(self) -> bool {
        self.stage != MailStage::Mx ==> 0 <= self.index < self.exchangers.len()
    }

    /// What the state needs answered.
    pub open spec fn query(self) -> QueryView {
        let name = self.exchangers[self.index].name;
        match self.stage {
            MailStage::Mx => lookup(self.domain, RecordType::MX),
            MailStage::Ipv4 => lookup(name, RecordType::A),
            MailStage::Ipv6 => lookup(name, RecordType::AAAA),
            MailStage::Ptr => lookup(ipv4_reverse_zone(self.ipv4), RecordType::PTR),
            MailStage::Dnssec => validated(name, RecordType::DNSKEY),
        }
    }

    /// The state turned to the exchanger at position `index`; the end of
    /// the check where there is none.
    pub open spec fn enter(self, index: int) -> Step<MailCheckView, Seq<MxView>> {
        if index < self.exchangers.len() {
            Step::Next(
                MailCheckView {
                    stage: MailStage::Ipv4,
                    index,
                    ipv4: Seq::empty(),
                    ipv6: Seq::empty(),
                    ptr: Seq::empty(),
                    ..self
                },
            )
        } else {
            Step::Done(Ok(self.mx))
        }
    }

    /// Where the check stands after `reply` answered its query. An
    /// exchanger without an IPv4 address is not asked for a reverse name.
    pub open spec fn step(self, reply: Option<Seq<Seq<char>>>) -> Step<MailCheckView, Seq<MxView>> {
        match self.stage {
            MailStage::Mx => match reply {
                None => Step::Done(Err(CheckError::NoMxRecords)),
                Some(records) => MailCheckView {
                    exchangers: exchangers_of(records),
                    ..self
                }.enter(0),
            },
            MailStage::Ipv4 => Step::Next(
                MailCheckView { stage: MailStage::Ipv6, ipv4: value_of(reply), ..self },
            ),
            MailStage::Ipv6 => Step::Next(
                MailCheckView {
                    stage: if self.ipv4.len() > 0 {
                        MailStage::Ptr
                    } else {
                        MailStage::Dnssec
                    },
                    ipv6: value_of(reply),
                    ptr: Seq::empty(),
                    ..self
                },
            ),
            MailStage::Ptr => Step::Next(
                MailCheckView { stage: MailStage::Dnssec, ptr: value_of(reply), ..self },
            ),
            MailStage::Dnssec => MailCheckView {
                mx: self.mx.push(
                    MxView {
                        name: self.exchangers[self.index].name,
                        ipv4: self.ipv4,
                        ipv6: self.ipv6,
                        ptr: self.ptr,
                        preference: self.exchangers[self.index].preference,
                        dnssec: reply is Some,
                    },
                ),
                ..self
            }.enter(self.index + 1),
        }
    }
}

/// The value that a reply gives: the last token of its first record; the
/// empty value for an answer without records; none without an answer.
pub fn check_record(reply: &Reply) -> (out: Option<String>)
    ensures
        out is Some <==> reply@ is Some,
        out is Some ==> out->0@ == value_of(reply@),
{
    match reply {
        Reply::Records(records) => Some(first_record_value(records)),
        Reply::Failure => None,
    }
}

/// The value that a reply gives, the empty value without an answer.
fn reply_value(reply: &Reply) -> (out: String)
    ensures
        out@ == value_of(reply@),
{
    match check_record(reply) {
        Some(value) => value,
        None => String::new(),
    }
}

/// The query that tells whether the zone of `domain` is signed.
pub fn dnssec_query(domain: &str) -> (out: Query)
    ensures
        out@ == validated(domain@, RecordType::DNSKEY),
{
    Query::Validated { name: domain.to_owned(), record_type: RecordType::DNSKEY }
}

/// Whether the zone of a name is signed: whether the validated query for
/// its keys was answered.
pub fn check_dnssec(reply: &Reply) -> (out: DNSSEC)
    ensures
        out.dnssec_enabled == (reply@ is Some),
{
    DNSSEC { dnssec_enabled: answered(reply) }
}

/// The exchangers that the records of an MX answer name.
fn read_exchangers(records: &Vec<String>) -> (out: Vec<Exchanger>)
    ensures
        views(out@) == exchangers_of(texts(records@)),
{
    let ghost all = exchangers_of(texts(records@));
    let mut out: Vec<Exchanger> = Vec::new();
    let mut i: usize = 0;
    while i < records.len()
        invariant
            i <= records.len(),
            all == exchangers_of(texts(records@)),
            views(out@) == all.take(i as int),
        decreases records.len() - i,
    {
        let (preference, name) = mx_target(records[i].as_str());
        let exchanger: Exchanger = Exchanger { preference, name };
        proof {
            assert(texts(records@)[i as int] == records@[i as int]@);
            assert(views(out@.push(exchanger)) =~= views(out@).push(exchanger@));
            assert(all.take(i + 1) =~= all.take(i as int).push(all[i as int]));
        }
        out.push(exchanger);
        i = i + 1;
    }
    proof {
        assert(all.take(records.len() as int) =~= all);
    }
    out
}

impl MailCheck {
    /// Every check has the exchanger that its stage speaks of.
    #[verifier::type_invariant]
    spec fn well_formed(self) -> bool {
        self@.wf()
    }

    /// Begins a check of the mail exchangers of `domain`.
    pub fn new(domain: &str) -> (out: MailCheck)
        ensures
            out@ == MailCheckView::start(domain@),
            out@.wf(),
    {
        let out = MailCheck {
            domain: domain.to_owned(),
            stage: MailStage::Mx,
            exchangers: Vec::new(),
            index: 0,
            ipv4: String::new(),
            ipv6: String::new(),
            ptr: String::new(),
            mx: Vec::new(),
        };
        proof {
            assert(out@.exchangers =~= Seq::<ExchangerView>::empty());
            assert(out@.mx =~= Seq::<MxView>::empty());
        }
        out
    }

    /// The query that the check needs answered next.
    pub fn query(&self) -> (out: Query)
        ensures
            out@ == self@.query(),
            self@.wf(),
    {
        proof {
            use_type_invariant(self);
        }
        match self.stage {
            MailStage::Mx => Query::Lookup {
                name: self.domain.clone(),
                record_type: RecordType::MX,
            },
            MailStage::Ipv4 => Query::Lookup {
                name: self.exchangers[self.index].name.clone(),
                record_type: RecordType::A,
            },
            MailStage::Ipv6 => Query::Lookup {
                name: self.exchangers[self.index].name.clone(),
                record_type: RecordType::AAAA,
            },
            MailStage::Ptr => Query::Lookup {
                name: ipv4_to_reverse_zone(self.ipv4.as_str()),
                record_type: RecordType::PTR,
            },
            MailStage::Dnssec => dnssec_query(self.exchangers[self.index].name.as_str()),
        }
    }
}

/// The check turned to the exchanger at position `index`, or its end.
fn enter(
    domain: String,
    exchangers: Vec<Exchanger>,
    index: usize,
    mx: Vec<Mx>,
) -> (out: Step<MailCheck, Email>)
    ensures
        out@ == (MailCheckView {
            domain: domain@,
            stage: MailStage::Mx,
            exchangers: views(exchangers@),
            index: 0,
            ipv4: Seq::empty(),
            ipv6: Seq::empty(),
            ptr: Seq::empty(),
            mx: views(mx@),
        }).enter(index as int),
{
    if index < exchangers.len() {
        Step::Next(
            MailCheck {
                domain,
                stage: MailStage::Ipv4,
                exchangers,
                index,
                ipv4: String::new(),
                ipv6: String::new(),
                ptr: String::new(),
                mx,
            },
        )
    } else {
        Step::Done(Ok(Email { mx }))
    }
}

/// Takes a check from the reply to its query to its next state, or to its
/// end: the report, or no report where the domain has no mail exchangers.
pub fn check_email(check: MailCheck, reply: Reply) -> (out: Step<MailCheck, Email>)
    ensures
        out@ == check@.step(reply@),
        check@.wf(),
        out matches Step::Next(next) ==> next@.wf(),
{
    proof {
        use_type_invariant(&check);
    }
    let MailCheck { domain, stage, exchangers, index, ipv4, ipv6, ptr, mx } = check;
    match stage {
        MailStage::Mx => match reply {
            Reply::Failure => Step::Done(Err(CheckError::NoMxRecords)),
            Reply::Records(records) => enter(domain, read_exchangers(&records), 0, mx),
        },
        MailStage::Ipv4 => Step::Next(
            MailCheck {
                domain,
                stage: MailStage::Ipv6,
                exchangers,
                index,
                ipv4: reply_value(&reply),
                ipv6,
                ptr,
                mx,
            },
        ),
        MailStage::Ipv6 => {
            let stage: MailStage = if ipv4.as_str().is_empty() {
                MailStage::Dnssec
            } else {
                MailStage::Ptr
            };
            Step::Next(
                MailCheck {
                    domain,
                    stage,
                    exchangers,
                    index,
                    ipv4,
                    ipv6: reply_value(&reply),
                    ptr: String::new(),
                    mx,
                },
            )
        },
        MailStage::Ptr => Step::Next(
            MailCheck {
                domain,
                stage: MailStage::Dnssec,
                exchangers,
                index,
                ipv4,
                ipv6,
                ptr: reply_value(&reply),
                mx,
            },
        ),
        MailStage::Dnssec => {
            let entry: Mx = Mx {
                name: exchangers[index].name.clone(),
                ipv4,
                ipv6,
                ptr,
                preference: exchangers[index].preference,
                dnssec: check_dnssec(&reply).dnssec_enabled,
            };
            let mut mx = mx;
            proof {
                assert(views(mx@.push(entry)) =~= views(mx@).push(entry@));
            }
            mx.push(entry);
            assert(index < exchangers.len());
            enter(domain, exchangers, index + 1, mx)
        },
    }
}

} // verus!

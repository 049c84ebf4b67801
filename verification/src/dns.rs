//! The record aggregator and the CAA analyzer.
//!
//! Both ask a fixed set of questions: the queries are planned from the
//! domain alone, the caller performs them, and the report is computed from
//! the replies.

use vstd::prelude::*;
use crate::query::{lookup, Query, QueryView, RecordType, Reply, Resolver};
use crate::records::{caa_entry, caa_entry_of, flatten_record, records_of, same_text};
use crate::text::texts;
use crate::types::{
    views, CAARecords, CAARecordsView, CheckCAA, CheckCAAView, CheckError, DnsRecord,
    DnsRecordView, DnsRecords,
};

verus! {

/// Every record type that the aggregator knows, in the order in which it
/// goes through them.
pub open spec fn record_types() -> Seq<RecordType> {
    seq![
        RecordType::A,
        RecordType::AAAA,
        RecordType::CNAME,
        RecordType::MX,
        RecordType::NS,
        RecordType::PTR,
        RecordType::SOA,
        RecordType::TXT,
        RecordType::CAA,
        RecordType::DNSKEY,
        RecordType::DS,
        RecordType::SSHFP,
        RecordType::SRV,
    ]
}

/// Whether the domain itself is asked for records of this type. Service
/// and text records are asked for under well-known labels only.
pub open spec fn asked_at_apex(record_type: RecordType) -> bool {
    record_type != RecordType::SRV && record_type != RecordType::TXT
}

/// The record types that the domain itself is asked for.
pub open spec fn apex_types() -> Seq<RecordType> {
    record_types().filter(|t: RecordType| asked_at_apex(t))
}

/// The labels under which service records are looked for.
pub open spec fn service_labels() -> Seq<Seq<char>> {
    seq!["_sip._tls"@, "_sipfederationtls._tcp"@, "_xmpp-client._tcp"@, "_xmpp-server._tcp"@]
}

/// The labels under which policy texts are looked for.
pub open spec fn policy_labels() -> Seq<Seq<char>> {
    seq!["_dmarc"@, "_domainkey"@, "_mta-sts"@, "_smtp._tls"@]
}

/// The name `label.domain`.
pub open spec fn under(label: Seq<char>, domain: Seq<char>) -> Seq<char> {
    label + "."@ + domain
}

/// One query for each of `types`, all for `name`.
pub open spec fn queries_for(name: Seq<char>, types: Seq<RecordType>) -> Seq<QueryView> {
    Seq::new(types.len(), |i: int| lookup(name, types[i]))
}

/// One query for `record_type` under each of `labels`.
pub open spec fn queries_under(
    labels: Seq<Seq<char>>,
    domain: Seq<char>,
    record_type: RecordType,
) -> Seq<QueryView> {
    Seq::new(labels.len(), |i: int| lookup(under(labels[i], domain), record_type))
}

/// The queries of the aggregator for `domain`, in order: the domain itself
/// for each apex type, `www.` for its addresses, the service labels, the
/// policy labels.
pub open spec fn record_plan(domain: Seq<char>) -> Seq<QueryView> {
    queries_for(domain, apex_types()) + queries_for(
        "www."@ + domain,
        seq![RecordType::A, RecordType::AAAA],
    ) + queries_under(service_labels(), domain, RecordType::SRV) + queries_under(
        policy_labels(),
        domain,
        RecordType::TXT,
    )
}

/// The record type that a query asks for; a connection asks for none.
pub open spec fn asked_type(query: QueryView) -> Option<RecordType> {
    match query {
        QueryView::Lookup { name, record_type } => Some(record_type),
        QueryView::Pinned { server, name, record_type } => Some(record_type),
        QueryView::Validated { name, record_type } => Some(record_type),
        QueryView::Connect { address } => None,
    }
}

/// What one reply adds to the collection: its records, flattened; nothing
/// where the query failed or asked for no records.
pub open spec fn answer_records(query: QueryView, reply: Option<Seq<Seq<char>>>) -> Seq<
    DnsRecordView,
> {
    match (asked_type(query), reply) {
        (Some(record_type), Some(records)) => records_of(records, record_type),
        _ => Seq::empty(),
    }
}

/// The records that the first `n` replies add, reply `i` read as the
/// answer to query `i`.
pub open spec fn collected(
    queries: Seq<QueryView>,
    replies: Seq<Option<Seq<Seq<char>>>>,
    n: int,
) -> Seq<DnsRecordView>
    decreases n,
{
    if n <= 0 || n > queries.len() || n > replies.len() {
        Seq::empty()
    } else {
        collected(queries, replies, n - 1) + answer_records(queries[n - 1], replies[n - 1])
    }
}

/// The number of queries that have a reply.
pub open spec fn paired(queries: Seq<QueryView>, replies: Seq<Option<Seq<Seq<char>>>>) -> int {
    if queries.len() <= replies.len() {
        queries.len() as int
    } else {
        replies.len() as int
    }
}

/// What `resolver` answers to each of `queries`.
pub open spec fn replies_of(resolver: Resolver, queries: Seq<QueryView>) -> Seq<
    Option<Seq<Seq<char>>>,
> {
    Seq::new(queries.len(), |i: int| resolver(queries[i]))
}

/// The records of `domain` as `resolver` gives them.
pub open spec fn gathered(resolver: Resolver, domain: Seq<char>) -> Seq<DnsRecordView> {
    let plan = record_plan(domain);
    collected(plan, replies_of(resolver, plan), plan.len() as int)
}

/// The CAA policy that the reply to the CAA query describes. Without an
/// answer there is no report; with one, the record exists, whatever the
/// number of entries, and reporting is enabled where an entry has the tag
/// `iodef`.
pub open spec fn caa_report(reply: Option<Seq<Seq<char>>>) -> Result<CheckCAAView, CheckError> {
    match reply {
        None => Err(CheckError::NoCaaRecords),
        Some(records) => Ok(
            CheckCAAView {
                record_exists: true,
                reporting_enabled: exists|i: int|
                    0 <= i < records.len() && #[trigger] caa_entry_of(records[i]).caa_type
                        == "iodef"@,
                records: Seq::new(records.len(), |i: int| caa_entry_of(records[i])),
            },
        ),
    }
}

/// Every record type that the aggregator knows.
fn all_record_types() -> (out: Vec<RecordType>)
    ensures
        out@ == record_types(),
{
    let mut out: Vec<RecordType> = Vec::new();
    out.push(RecordType::A);
    out.push(RecordType::AAAA);
    out.push(RecordType::CNAME);
    out.push(RecordType::MX);
    out.push(RecordType::NS);
    out.push(RecordType::PTR);
    out.push(RecordType::SOA);
    out.push(RecordType::TXT);
    out.push(RecordType::CAA);
    out.push(RecordType::DNSKEY);
    out.push(RecordType::DS);
    out.push(RecordType::SSHFP);
    out.push(RecordType::SRV);
    proof {
        assert(out@ =~= record_types());
    }
    out
}

/// A query to the default resolver.
pub fn lookup_query(name: &str, record_type: RecordType) -> (out: Query)
    ensures
        out@ == lookup(name@, record_type),
{
    Query::Lookup { name: name.to_owned(), record_type }
}

/// Adds a query for `record_type` under each of `labels` to `out`.
fn push_under(out: &mut Vec<Query>, labels: &Vec<String>, domain: &str, record_type: RecordType)
    ensures
        views(final(out)@) == views(old(out)@) + queries_under(
            texts(labels@),
            domain@,
            record_type,
        ),
{
    let ghost before = views(out@);
    let ghost all = queries_under(texts(labels@), domain@, record_type);
    let mut i: usize = 0;
    while i < labels.len()
        invariant
            i <= labels.len(),
            all == queries_under(texts(labels@), domain@, record_type),
            views(out@) == before + all.take(i as int),
        decreases labels.len() - i,
    {
        let mut name: String = labels[i].clone();
        name.append(".");
        name.append(domain);
        let query: Query = Query::Lookup { name, record_type };
        proof {
            assert(views(out@.push(query)) =~= views(out@).push(query@));
            assert(all.take(i + 1) =~= all.take(i as int).push(all[i as int]));
            assert((before + all.take(i as int)).push(query@) =~= before + all.take(i + 1));
        }
        out.push(query);
        i = i + 1;
    }
    proof {
        assert(all.take(labels.len() as int) =~= all);
    }
}

/// The queries that the aggregator needs answered for `domain`.
pub fn record_queries(domain: &str) -> (out: Vec<Query>)
    ensures
        views(out@) == record_plan(domain@),
{
    let types: Vec<RecordType> = all_record_types();
    let mut out: Vec<Query> = Vec::new();
    let ghost apex = |t: RecordType| asked_at_apex(t);
    let mut i: usize = 0;
    while i < types.len()
        invariant
            i <= types.len(),
            types@ == record_types(),
            apex == |t: RecordType| asked_at_apex(t),
            views(out@) == queries_for(domain@, types@.take(i as int).filter(apex)),
        decreases types.len() - i,
    {
        proof {
            reveal(Seq::filter);
            assert(types@.take(i + 1).drop_last() =~= types@.take(i as int));
        }
        let record_type: RecordType = types[i];
        let skip: bool = match record_type {
            RecordType::SRV => true,
            RecordType::TXT => true,
            _ => false,
        };
        if !skip {
            let query: Query = lookup_query(domain, record_type);
            proof {
                let kept = types@.take(i as int).filter(apex);
                assert(views(out@.push(query)) =~= views(out@).push(query@));
                assert(queries_for(domain@, kept.push(record_type)) =~= queries_for(
                    domain@,
                    kept,
                ).push(query@));
            }
            out.push(query);
        }
        i = i + 1;
    }
    proof {
        assert(types@.take(types.len() as int) =~= types@);
    }
    let mut www: String = "www.".to_owned();
    www.append(domain);
    let first: Query = lookup_query(www.as_str(), RecordType::A);
    let second: Query = lookup_query(www.as_str(), RecordType::AAAA);
    proof {
        let so_far = queries_for(domain@, apex_types());
        assert(views(out@.push(first).push(second)) =~= so_far + queries_for(
            "www."@ + domain@,
            seq![RecordType::A, RecordType::AAAA],
        ));
    }
    out.push(first);
    out.push(second);
    let mut services: Vec<String> = Vec::new();
    services.push("_sip._tls".to_owned());
    services.push("_sipfederationtls._tcp".to_owned());
    services.push("_xmpp-client._tcp".to_owned());
    services.push("_xmpp-server._tcp".to_owned());
    let mut policies: Vec<String> = Vec::new();
    policies.push("_dmarc".to_owned());
    policies.push("_domainkey".to_owned());
    policies.push("_mta-sts".to_owned());
    policies.push("_smtp._tls".to_owned());
    proof {
        assert(texts(services@) =~= service_labels());
        assert(texts(policies@) =~= policy_labels());
    }
    push_under(&mut out, &services, domain, RecordType::SRV);
    push_under(&mut out, &policies, domain, RecordType::TXT);
    out
}

/// The record type that a query asks for; a connection asks for none.
pub fn query_type(query: &Query) -> (out: Option<RecordType>)
    ensures
        out == asked_type(query@),
{
    match query {
        Query::Lookup { name, record_type } => Some(*record_type),
        Query::Pinned { server, name, record_type } => Some(*record_type),
        Query::Validated { name, record_type } => Some(*record_type),
        Query::Connect { address } => None,
    }
}

/// Adds the records of one reply to `records`, each flattened and marked
/// with `record_type`. A failed query adds nothing.
pub fn check_and_add_record(record_type: RecordType, reply: &Reply, records: &mut DnsRecords)
    ensures
        final(records)@ == old(records)@ + (match reply@ {
            Some(rendered) => records_of(rendered, record_type),
            None => Seq::empty(),
        }),
{
    let ghost before = records@;
    match reply {
        Reply::Records(rendered) => {
            let ghost all = records_of(texts(rendered@), record_type);
            let mut i: usize = 0;
            while i < rendered.len()
                invariant
                    i <= rendered.len(),
                    all == records_of(texts(rendered@), record_type),
                    records@ == before + all.take(i as int),
                decreases rendered.len() - i,
            {
                let record: DnsRecord = flatten_record(rendered[i].as_str(), record_type);
                proof {
                    assert(views(records.dns_records@.push(record)) =~= views(
                        records.dns_records@,
                    ).push(record@));
                    assert(all.take(i + 1) =~= all.take(i as int).push(all[i as int]));
                    assert((before + all.take(i as int)).push(record@) =~= before + all.take(
                        i + 1,
                    ));
                }
                records.dns_records.push(record);
                i = i + 1;
            }
            proof {
                assert(all.take(rendered.len() as int) =~= all);
            }
        },
        Reply::Failure => {
            proof {
                assert(before + Seq::<DnsRecordView>::empty() =~= before);
            }
        },
    }
}

/// Gathers the records of all replies into one list, in the order of the
/// queries: reply `i` is read as the answer to query `i`. A query without a
/// reply, and a reply without a query, adds nothing.
pub fn dns_records(queries: &Vec<Query>, replies: &Vec<Reply>) -> (out: DnsRecords)
    ensures
        out@ == collected(
            views(queries@),
            views(replies@),
            paired(views(queries@), views(replies@)),
        ),
{
    let mut out: DnsRecords = DnsRecords { dns_records: Vec::new() };
    let n: usize = if queries.len() <= replies.len() {
        queries.len()
    } else {
        replies.len()
    };
    let mut i: usize = 0;
    proof {
        assert(out@ =~= Seq::<DnsRecordView>::empty());
    }
    while i < n
        invariant
            i <= n,
            n <= queries.len(),
            n <= replies.len(),
            out@ == collected(views(queries@), views(replies@), i as int),
        decreases n - i,
    {
        match query_type(&queries[i]) {
            Some(record_type) => {
                check_and_add_record(record_type, &replies[i], &mut out);
            },
            None => {
                proof {
                    assert(out@ + Seq::<DnsRecordView>::empty() =~= out@);
                }
            },
        }
        i = i + 1;
    }
    out
}

/// The query that the CAA analyzer needs answered for `domain`.
pub fn caa_query(domain: &str) -> (out: Query)
    ensures
        out@ == lookup(domain@, RecordType::CAA),
{
    lookup_query(domain, RecordType::CAA)
}

/// Reads the CAA policy of a domain from the reply to its CAA query.
pub fn check_caa(reply: &Reply) -> (out: Result<CheckCAA, CheckError>)
    ensures
        out is Ok ==> caa_report(reply@) == Ok::<CheckCAAView, CheckError>(out->Ok_0@),
        out is Err ==> caa_report(reply@) == Err::<CheckCAAView, CheckError>(out->Err_0),
{
    match reply {
        Reply::Failure => Err(CheckError::NoCaaRecords),
        Reply::Records(rendered) => {
            let ghost all = Seq::new(rendered.len() as nat, |i: int| caa_entry_of(rendered@[i]@));
            let mut entries: Vec<CAARecords> = Vec::new();
            let mut reporting: bool = false;
            let mut i: usize = 0;
            while i < rendered.len()
                invariant
                    i <= rendered.len(),
                    all == Seq::new(rendered.len() as nat, |i: int| caa_entry_of(rendered@[i]@)),
                    views(entries@) == all.take(i as int),
                    reporting == exists|k: int|
                        0 <= k < i && #[trigger] caa_entry_of(texts(rendered@)[k]).caa_type
                            == "iodef"@,
                decreases rendered.len() - i,
            {
                let entry: CAARecords = caa_entry(rendered[i].as_str());
                let ghost seen = reporting;
                if same_text(entry.caa_type.as_str(), "iodef") {
                    reporting = true;
                }
                proof {
                    assert(texts(rendered@)[i as int] == rendered@[i as int]@);
                    if reporting {
                        if seen {
                            let k = choose|k: int|
                                0 <= k < i && #[trigger] caa_entry_of(
                                    texts(rendered@)[k],
                                ).caa_type == "iodef"@;
                            assert(0 <= k < i + 1 && caa_entry_of(texts(rendered@)[k]).caa_type
                                == "iodef"@);
                        } else {
                            assert(caa_entry_of(texts(rendered@)[i as int]).caa_type == "iodef"@);
                        }
                    } else {
                        assert forall|k: int| 0 <= k < i + 1 implies #[trigger] caa_entry_of(
                            texts(rendered@)[k],
                        ).caa_type != "iodef"@ by {
                            if k < i {
                            }
                        }
                    }
                    assert(views(entries@.push(entry)) =~= views(entries@).push(entry@));
                    assert(all.take(i + 1) =~= all.take(i as int).push(all[i as int]));
                }
                entries.push(entry);
                i = i + 1;
            }
            proof {
                assert(all.take(rendered.len() as int) =~= all);
                assert(all =~= Seq::new(
                    texts(rendered@).len(),
                    |i: int| caa_entry_of(texts(rendered@)[i]),
                ));
            }
            Ok(CheckCAA { record_exists: true, reporting_enabled: reporting, records: entries })
        },
    }
}

/// The record types that the domain itself is asked for, one by one.
pub proof fn lemma_apex_types()
    ensures
        apex_types() == seq![
            RecordType::A,
            RecordType::AAAA,
            RecordType::CNAME,
            RecordType::MX,
            RecordType::NS,
            RecordType::PTR,
            RecordType::SOA,
            RecordType::CAA,
            RecordType::DNSKEY,
            RecordType::DS,
            RecordType::SSHFP,
        ],
{
    reveal(Seq::filter);
    let all = record_types();
    let apex = |t: RecordType| asked_at_apex(t);
    assert(all.take(0).filter(apex) =~= Seq::<RecordType>::empty());
    assert(all.take(1).drop_last() =~= all.take(0));
    assert(all.take(2).drop_last() =~= all.take(1));
    assert(all.take(3).drop_last() =~= all.take(2));
    assert(all.take(4).drop_last() =~= all.take(3));
    assert(all.take(5).drop_last() =~= all.take(4));
    assert(all.take(6).drop_last() =~= all.take(5));
    assert(all.take(7).drop_last() =~= all.take(6));
    assert(all.take(8).drop_last() =~= all.take(7));
    assert(all.take(9).drop_last() =~= all.take(8));
    assert(all.take(10).drop_last() =~= all.take(9));
    assert(all.take(11).drop_last() =~= all.take(10));
    assert(all.take(12).drop_last() =~= all.take(11));
    assert(all.take(13).drop_last() =~= all.take(12));
    assert(all.take(1).filter(apex) =~= seq![RecordType::A]);
    assert(all.take(2).filter(apex) =~= seq![RecordType::A, RecordType::AAAA]);
    assert(all.take(3).filter(apex).len() == 3);
    assert(all.take(4).filter(apex).len() == 4);
    assert(all.take(5).filter(apex).len() == 5);
    assert(all.take(6).filter(apex).len() == 6);
    assert(all.take(7).filter(apex).len() == 7);
    assert(all.take(8).filter(apex).len() == 7);
    assert(all.take(9).filter(apex).len() == 8);
    assert(all.take(10).filter(apex).len() == 9);
    assert(all.take(11).filter(apex).len() == 10);
    assert(all.take(12).filter(apex).len() == 11);
    assert(all.take(13).filter(apex).len() == 11);
    assert(all.take(13) =~= all);
    assert(apex_types() =~= seq![
        RecordType::A,
        RecordType::AAAA,
        RecordType::CNAME,
        RecordType::MX,
        RecordType::NS,
        RecordType::PTR,
        RecordType::SOA,
        RecordType::CAA,
        RecordType::DNSKEY,
        RecordType::DS,
        RecordType::SSHFP,
    ]);
}

/// The aggregator asks one query for each record type but the two that
/// are left to the labels, two for `www.`, and one for each label:
/// twenty-one in all, whatever the domain.
pub proof fn plan_size(domain: Seq<char>)
    ensures
        record_plan(domain).len() == record_types().len() - 2 + 2 + service_labels().len()
            + policy_labels().len(),
        record_plan(domain).len() == 21,
{
    lemma_apex_types();
}

/// A query that failed adds no record.
pub proof fn failure_adds_nothing(query: QueryView)
    ensures
        answer_records(query, None) == Seq::<DnsRecordView>::empty(),
{
}

/// Two networks that answer every query alike give the same records.
pub proof fn gathering_is_repeatable(first: Resolver, second: Resolver, domain: Seq<char>)
    requires
        forall|query: QueryView| #[trigger] first(query) == second(query),
    ensures
        gathered(first, domain) == gathered(second, domain),
{
    assert(first =~= second);
}

/// An answer with an entry whose tag is `iodef` enables reporting.
pub proof fn iodef_enables_reporting(records: Seq<Seq<char>>, i: int)
    requires
        0 <= i < records.len(),
        caa_entry_of(records[i]).caa_type == "iodef"@,
    ensures
        caa_report(Some(records)) is Ok,
        caa_report(Some(records))->Ok_0.reporting_enabled,
{
}

/// An answer without entries is still an answer: the record exists, and
/// nothing is reported.
pub proof fn empty_answer_still_exists()
    ensures
        caa_report(Some(Seq::empty())) == Ok::<CheckCAAView, CheckError>(
            CheckCAAView {
                record_exists: true,
                reporting_enabled: false,
                records: Seq::empty(),
            },
        ),
{
    let report = caa_report(Some(Seq::empty()))->Ok_0;
    assert(report.records =~= Seq::<CAARecordsView>::empty());
}

} // verus!

use domain_check::dns::{
    caa_query, check_and_add_record, check_caa, dns_records, lookup_query, query_type,
    record_queries,
};
use domain_check::query::{answered, Query, RecordType, Reply};
use domain_check::types::{CAARecords, CheckCAA, CheckError, DnsRecord, DnsRecords};

fn ask(name: &str, record_type: RecordType) -> Query {
    Query::Lookup { name: name.to_string(), record_type }
}

fn records(items: &[&str]) -> Reply {
    Reply::Records(items.iter().map(|s| s.to_string()).collect())
}

#[test]
fn aggregator_plans_the_same_queries_for_every_domain() {
    let expected = vec![
        ask("example.com", RecordType::A),
        ask("example.com", RecordType::AAAA),
        ask("example.com", RecordType::CNAME),
        ask("example.com", RecordType::MX),
        ask("example.com", RecordType::NS),
        ask("example.com", RecordType::PTR),
        ask("example.com", RecordType::SOA),
        ask("example.com", RecordType::CAA),
        ask("example.com", RecordType::DNSKEY),
        ask("example.com", RecordType::DS),
        ask("example.com", RecordType::SSHFP),
        ask("www.example.com", RecordType::A),
        ask("www.example.com", RecordType::AAAA),
        ask("_sip._tls.example.com", RecordType::SRV),
        ask("_sipfederationtls._tcp.example.com", RecordType::SRV),
        ask("_xmpp-client._tcp.example.com", RecordType::SRV),
        ask("_xmpp-server._tcp.example.com", RecordType::SRV),
        ask("_dmarc.example.com", RecordType::TXT),
        ask("_domainkey.example.com", RecordType::TXT),
        ask("_mta-sts.example.com", RecordType::TXT),
        ask("_smtp._tls.example.com", RecordType::TXT),
    ];
    assert_eq!(record_queries("example.com"), expected);
}

#[test]
fn aggregator_asks_twenty_one_queries() {
    assert_eq!(record_queries("example.com").len(), 21);
    assert_eq!(record_queries("").len(), 21);
    assert_eq!(record_queries("a.very.long.name.example.org.").len(), 21);
}

#[test]
fn aggregator_swallows_every_failure() {
    let queries = record_queries("example.com");
    let replies: Vec<Reply> = queries.iter().map(|_| Reply::Failure).collect();
    assert_eq!(dns_records(&queries, &replies), DnsRecords { dns_records: vec![] });
}

#[test]
fn aggregator_keeps_the_order_of_the_queries() {
    let queries = record_queries("example.com");
    let replies: Vec<Reply> = queries
        .iter()
        .map(|q| match q {
            Query::Lookup { name, record_type: RecordType::A } if name == "example.com" => {
                records(&["example.com. 60 IN A 192.0.2.1", "example.com. 60 IN A 192.0.2.2"])
            }
            Query::Lookup { name, record_type: RecordType::TXT } if name == "_dmarc.example.com" => {
                records(&["_dmarc.example.com. 300 IN TXT \"v=DMARC1; p=none\""])
            }
            Query::Lookup { record_type: RecordType::MX, .. } => records(&[]),
            _ => Reply::Failure,
        })
        .collect();
    let found = dns_records(&queries, &replies);
    assert_eq!(
        found.dns_records,
        vec![
            DnsRecord {
                name: "example.com.".to_string(),
                ttl: "60".to_string(),
                record_type: "A".to_string(),
                data: "192.0.2.1".to_string(),
            },
            DnsRecord {
                name: "example.com.".to_string(),
                ttl: "60".to_string(),
                record_type: "A".to_string(),
                data: "192.0.2.2".to_string(),
            },
            DnsRecord {
                name: "_dmarc.example.com.".to_string(),
                ttl: "300".to_string(),
                record_type: "TXT".to_string(),
                data: "\"v=DMARC1; p=none\"".to_string(),
            },
        ]
    );
}

#[test]
fn aggregator_gives_the_same_records_twice() {
    let queries = record_queries("example.com");
    let replies: Vec<Reply> = queries
        .iter()
        .map(|q| match q {
            Query::Lookup { record_type: RecordType::NS, .. } => {
                records(&["example.com. 60 IN NS ns1.example.com."])
            }
            _ => Reply::Failure,
        })
        .collect();
    assert_eq!(dns_records(&queries, &replies), dns_records(&queries, &replies));
    assert_eq!(dns_records(&queries, &replies).dns_records.len(), 1);
}

#[test]
fn aggregator_reads_only_paired_replies() {
    let queries = vec![ask("a", RecordType::A), ask("a", RecordType::NS)];
    let replies = vec![records(&["a 1 IN A 192.0.2.1"])];
    assert_eq!(dns_records(&queries, &replies).dns_records.len(), 1);
    let more = vec![
        records(&["a 1 IN A 192.0.2.1"]),
        records(&["a 1 IN NS ns."]),
        records(&["a 1 IN NS other."]),
    ];
    let found = dns_records(&queries, &more);
    assert_eq!(found.dns_records.len(), 2);
    assert_eq!(found.dns_records[1].record_type, "NS");
    let connect = vec![Query::Connect { address: "192.0.2.1".to_string() }];
    assert_eq!(dns_records(&connect, &more).dns_records.len(), 0);
}

#[test]
fn one_reply_adds_its_records_at_the_end() {
    let mut found = DnsRecords { dns_records: vec![] };
    check_and_add_record(RecordType::A, &records(&["a 1 IN A 192.0.2.1"]), &mut found);
    check_and_add_record(RecordType::AAAA, &Reply::Failure, &mut found);
    check_and_add_record(RecordType::NS, &records(&["a 2 IN NS ns1.", "a 2 IN NS ns2."]), &mut found);
    let types: Vec<&str> = found.dns_records.iter().map(|r| r.record_type.as_str()).collect();
    assert_eq!(types, vec!["A", "NS", "NS"]);
    assert_eq!(found.dns_records[2].data, "ns2.");
}

#[test]
fn queries_know_their_record_type() {
    assert_eq!(query_type(&ask("a", RecordType::DS)), Some(RecordType::DS));
    assert_eq!(
        query_type(&Query::Pinned {
            server: "192.0.2.1".to_string(),
            name: "a".to_string(),
            record_type: RecordType::A
        }),
        Some(RecordType::A)
    );
    assert_eq!(
        query_type(&Query::Validated { name: "a".to_string(), record_type: RecordType::DNSKEY }),
        Some(RecordType::DNSKEY)
    );
    assert_eq!(query_type(&Query::Connect { address: "192.0.2.1".to_string() }), None);
    assert_eq!(lookup_query("a", RecordType::PTR), ask("a", RecordType::PTR));
    assert!(answered(&records(&[])));
    assert!(!answered(&Reply::Failure));
}

#[test]
fn caa_issue_record_is_classified() {
    assert_eq!(caa_query("example.com"), ask("example.com", RecordType::CAA));
    let report =
        check_caa(&records(&["example.com. 3600 IN CAA 0 issue \"ca.example.net\""])).unwrap();
    assert!(report.record_exists);
    assert!(!report.reporting_enabled);
    assert_eq!(report.records.len(), 1);
    assert_eq!(report.records[0].name, "example.com.");
    assert_eq!(report.records[0].caa_type, "issue");
    assert_eq!(report.records[0].data.trim_matches('"'), "ca.example.net");
    assert_eq!(report.records[0].data, "\"ca.example.net\"");
}

#[test]
fn caa_iodef_record_enables_reporting() {
    let report = check_caa(&records(&[
        "example.com. 3600 IN CAA 0 issue \"ca.example.net\"",
        "example.com. 3600 IN CAA 0 iodef \"mailto:security@example.com\"",
        "example.com. 3600 IN CAA 0 issuewild \";\"",
    ]))
    .unwrap();
    assert!(report.reporting_enabled);
    let tags: Vec<&str> = report.records.iter().map(|r| r.caa_type.as_str()).collect();
    assert_eq!(tags, vec!["issue", "iodef", "issuewild"]);
    let fused = check_caa(&records(&["example.com. 3600 IN CAA \"iodef\""])).unwrap();
    assert!(fused.reporting_enabled);
    let none = check_caa(&records(&["example.com. 3600 IN CAA 0 issue iodef"])).unwrap();
    assert!(!none.reporting_enabled);
}

#[test]
fn caa_answer_without_entries_still_exists() {
    assert_eq!(
        check_caa(&records(&[])),
        Ok(CheckCAA { record_exists: true, reporting_enabled: false, records: vec![] })
    );
}

#[test]
fn caa_query_failure_is_no_report() {
    assert_eq!(check_caa(&Reply::Failure), Err(CheckError::NoCaaRecords));
}

#[test]
fn caa_report_is_the_same_twice() {
    let reply = records(&["example.com. 3600 IN CAA 0 iodef \"mailto:a@example.com\""]);
    assert_eq!(check_caa(&reply), check_caa(&reply));
    assert_eq!(
        check_caa(&reply),
        Ok(CheckCAA {
            record_exists: true,
            reporting_enabled: true,
            records: vec![CAARecords {
                name: "example.com.".to_string(),
                caa_type: "iodef".to_string(),
                data: "\"mailto:a@example.com\"".to_string(),
            }],
        })
    );
}

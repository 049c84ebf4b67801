use domain_check::ns::{check_ns, NsProbe};
use domain_check::query::{Query, RecordType, Reply, Step};
use domain_check::types::{CheckError, NSARecords, NSAddresses, NSRecord, SOARecord};

struct Net {
    answers: Vec<(Query, Reply)>,
}

impl Net {
    fn new() -> Net {
        Net { answers: Vec::new() }
    }

    fn with(mut self, query: Query, records: &[&str]) -> Net {
        self.answers.push((query, Reply::Records(records.iter().map(|s| s.to_string()).collect())));
        self
    }

    fn answer(&self, query: &Query) -> Reply {
        for (known, reply) in &self.answers {
            if known == query {
                return reply.clone();
            }
        }
        Reply::Failure
    }
}

fn ask(name: &str, record_type: RecordType) -> Query {
    Query::Lookup { name: name.to_string(), record_type }
}

fn pinned(server: &str, name: &str) -> Query {
    Query::Pinned { server: server.to_string(), name: name.to_string(), record_type: RecordType::A }
}

fn connect(address: &str) -> Query {
    Query::Connect { address: address.to_string() }
}

fn probe(net: &Net, domain: &str) -> (Result<NSRecord, CheckError>, Vec<Query>) {
    let mut state = NsProbe::new(domain);
    let mut asked = Vec::new();
    loop {
        let query = state.query();
        let reply = net.answer(&query);
        asked.push(query);
        match check_ns(state, reply) {
            Step::Next(next) => state = next,
            Step::Done(outcome) => return (outcome, asked),
        }
    }
}

const SOA: &str =
    "example.com. 3600 IN SOA ns1.example.com. hostmaster.example.com. 7 7200 3600 1209600 300";
const V6_ZONE: &str = "1.0.0.0.0.0.0.0.0.0.0.0.0.0.0.0.0.0.0.0.0.0.0.0.8.b.d.0.1.0.0.2.ip6.arpa";

fn example_net() -> Net {
    Net::new()
        .with(ask("example.com", RecordType::SOA), &[SOA])
        .with(
            ask("example.com", RecordType::NS),
            &["example.com. 3600 IN NS ns1.example.com.", "example.com. 3600 IN NS ns2.example.com."],
        )
        .with(ask("ns1.example.com.", RecordType::A), &["ns1.example.com. 60 IN A 192.0.2.10"])
        .with(ask("ns1.example.com.", RecordType::AAAA), &["ns1.example.com. 60 IN AAAA 2001:db8::1"])
        .with(connect("192.0.2.10"), &[])
        .with(pinned("192.0.2.10", "example.com"), &["example.com. 60 IN A 203.0.113.1"])
        .with(
            ask("10.2.0.192.in-addr.arpa", RecordType::PTR),
            &["10.2.0.192.in-addr.arpa. 60 IN PTR ns1.example.com."],
        )
        .with(pinned("2001:db8::1", "internetstiftelsen.se"), &["internetstiftelsen.se. 60 IN A 198.51.100.1"])
        .with(ask(V6_ZONE, RecordType::PTR), &["x. 60 IN PTR other.example.net."])
}

#[test]
fn domain_without_nameservers_has_no_report() {
    let net = Net::new().with(ask("example.com", RecordType::SOA), &[SOA]);
    let (outcome, asked) = probe(&net, "example.com");
    assert_eq!(outcome, Err(CheckError::NoNsRecords));
    assert_eq!(
        asked,
        vec![ask("example.com", RecordType::SOA), ask("example.com", RecordType::NS)]
    );
    let (outcome, asked) = probe(&Net::new(), "nothing.example");
    assert_eq!(outcome, Err(CheckError::NoNsRecords));
    assert_eq!(asked.len(), 2);
}

#[test]
fn probe_reports_hosts_and_addresses() {
    let (outcome, _) = probe(&example_net(), "example.com");
    let report = outcome.unwrap();
    assert_eq!(report.name, "example.com");
    assert_eq!(
        report.soa,
        SOARecord {
            primary_ns: "ns1.example.com.".to_string(),
            contact: "hostmaster.example.com.".to_string(),
            serial: "7".to_string(),
            refresh: "7200".to_string(),
            retry: "3600".to_string(),
            expire: "1209600".to_string(),
            cache_ttl: "300".to_string(),
            soa_ttl: "3600".to_string(),
        }
    );
    assert_eq!(
        report.records,
        vec![
            NSARecords {
                nsdomain: "ns1.example.com.".to_string(),
                operational: true,
                ipv4available: true,
                ipv6available: true,
                ipv4_addresses: vec!["192.0.2.10".to_string()],
                ipv6_addresses: vec!["2001:db8::1".to_string()],
                referral_ns_soa: true,
            },
            NSARecords {
                nsdomain: "ns2.example.com.".to_string(),
                operational: false,
                ipv4available: false,
                ipv6available: false,
                ipv4_addresses: vec![],
                ipv6_addresses: vec![],
                referral_ns_soa: false,
            },
        ]
    );
    assert_eq!(
        report.nsaddresses,
        vec![
            NSAddresses {
                ip: "192.0.2.10".to_string(),
                ptr: "ns1.example.com.".to_string(),
                referral_ns_soa: true,
                operational: true,
                authoritative: true,
                recursive: false,
                udp: true,
                tcp: true,
            },
            NSAddresses {
                ip: "2001:db8::1".to_string(),
                ptr: "other.example.net.".to_string(),
                referral_ns_soa: false,
                operational: false,
                authoritative: false,
                recursive: true,
                udp: false,
                tcp: false,
            },
        ]
    );
}

#[test]
fn probe_asks_in_a_fixed_order() {
    let (_, asked) = probe(&example_net(), "example.com");
    assert_eq!(
        asked,
        vec![
            ask("example.com", RecordType::SOA),
            ask("example.com", RecordType::NS),
            ask("ns1.example.com.", RecordType::A),
            ask("ns1.example.com.", RecordType::AAAA),
            connect("192.0.2.10"),
            pinned("192.0.2.10", "example.com"),
            pinned("192.0.2.10", "internetstiftelsen.se"),
            ask("10.2.0.192.in-addr.arpa", RecordType::PTR),
            connect("2001:db8::1"),
            pinned("2001:db8::1", "example.com"),
            pinned("2001:db8::1", "internetstiftelsen.se"),
            ask(V6_ZONE, RecordType::PTR),
            ask("ns2.example.com.", RecordType::A),
            ask("ns2.example.com.", RecordType::AAAA),
        ]
    );
}

#[test]
fn address_refers_when_ptr_names_the_primary() {
    let (outcome, _) = probe(&example_net(), "example.com");
    let report = outcome.unwrap();
    assert!(report.nsaddresses[0].referral_ns_soa);
    assert_eq!(report.nsaddresses[0].ptr, report.soa.primary_ns);
    assert!(!report.nsaddresses[1].referral_ns_soa);
}

#[test]
fn failed_ptr_lookup_never_refers() {
    let net = Net::new()
        .with(ask("example.com", RecordType::SOA), &[SOA])
        .with(ask("example.com", RecordType::NS), &["example.com. 3600 IN NS ns1.example.com."])
        .with(ask("ns1.example.com.", RecordType::A), &["ns1.example.com. 60 IN A 192.0.2.10"])
        .with(ask("ns1.example.com.", RecordType::AAAA), &["ns1.example.com. 60 IN AAAA 2001:db8::1"]);
    let (outcome, _) = probe(&net, "example.com");
    let report = outcome.unwrap();
    assert_eq!(report.nsaddresses.len(), 2);
    for entry in &report.nsaddresses {
        assert_eq!(entry.ptr, "");
        assert!(!entry.referral_ns_soa);
    }
}

#[test]
fn unknown_primary_is_never_matched() {
    let net = Net::new()
        .with(ask("example.com", RecordType::NS), &["example.com. 3600 IN NS"])
        .with(ask("", RecordType::A), &["x 60 IN A 192.0.2.10"]);
    let (outcome, _) = probe(&net, "example.com");
    let report = outcome.unwrap();
    assert_eq!(report.soa.primary_ns, "");
    assert_eq!(report.records.len(), 1);
    assert_eq!(report.records[0].nsdomain, "");
    assert!(!report.records[0].referral_ns_soa);
    assert_eq!(report.nsaddresses.len(), 1);
    assert_eq!(report.nsaddresses[0].ptr, "");
    assert!(!report.nsaddresses[0].referral_ns_soa);
}

#[test]
fn last_soa_and_last_ptr_record_count() {
    let net = Net::new()
        .with(
            ask("example.com", RecordType::SOA),
            &["example.com. 1 IN SOA first. a. 1 2 3 4 5", "example.com. 1 IN SOA second. b. 1 2 3 4 5"],
        )
        .with(ask("example.com", RecordType::NS), &["example.com. 3600 IN NS second."])
        .with(ask("second.", RecordType::A), &["second. 60 IN A 192.0.2.1"])
        .with(
            ask("1.2.0.192.in-addr.arpa", RecordType::PTR),
            &["x 1 IN PTR first.", "x 1 IN PTR second."],
        );
    let (outcome, _) = probe(&net, "example.com");
    let report = outcome.unwrap();
    assert_eq!(report.soa.primary_ns, "second.");
    assert!(report.records[0].referral_ns_soa);
    assert_eq!(report.nsaddresses[0].ptr, "second.");
    assert!(report.nsaddresses[0].referral_ns_soa);
}

#[test]
fn answer_without_nameservers_is_an_empty_report() {
    let net = Net::new().with(ask("example.com", RecordType::NS), &[]);
    let (outcome, asked) = probe(&net, "example.com");
    let report = outcome.unwrap();
    assert_eq!(report.records, vec![]);
    assert_eq!(report.nsaddresses, vec![]);
    assert_eq!(asked.len(), 2);
}

#[test]
fn host_is_operational_when_one_family_answers() {
    let net = Net::new()
        .with(ask("example.com", RecordType::NS), &["example.com. 3600 IN NS ns1."])
        .with(ask("ns1.", RecordType::AAAA), &[]);
    let (outcome, asked) = probe(&net, "example.com");
    let report = outcome.unwrap();
    assert!(report.records[0].operational);
    assert!(!report.records[0].ipv4available);
    assert!(!report.records[0].ipv6available);
    assert_eq!(report.nsaddresses, vec![]);
    assert_eq!(asked.len(), 4);
}

#[test]
fn address_without_reverse_zone_is_not_looked_up() {
    let net = Net::new()
        .with(ask("example.com", RecordType::NS), &["example.com. 3600 IN NS ns1."])
        .with(ask("ns1.", RecordType::AAAA), &["ns1. 60 IN AAAA 1::2::3", "ns1. 60 IN AAAA ::1"])
        .with(connect("1::2::3"), &[]);
    let (outcome, asked) = probe(&net, "example.com");
    let report = outcome.unwrap();
    assert_eq!(report.records[0].ipv6_addresses, vec!["1::2::3".to_string(), "::1".to_string()]);
    assert_eq!(report.nsaddresses.len(), 2);
    assert_eq!(report.nsaddresses[0].ptr, "");
    assert!(report.nsaddresses[0].tcp);
    let reverse: Vec<&Query> = asked
        .iter()
        .filter(|q| matches!(q, Query::Lookup { record_type: RecordType::PTR, .. }))
        .collect();
    assert_eq!(
        reverse,
        vec![&ask(
            "1.0.0.0.0.0.0.0.0.0.0.0.0.0.0.0.0.0.0.0.0.0.0.0.0.0.0.0.0.0.0.0.ip6.arpa",
            RecordType::PTR
        )]
    );
}

#[test]
fn tcp_alone_does_not_make_an_address_operational() {
    let net = Net::new()
        .with(ask("example.com", RecordType::NS), &["example.com. 3600 IN NS ns1."])
        .with(ask("ns1.", RecordType::A), &["ns1. 60 IN A 192.0.2.1"])
        .with(connect("192.0.2.1"), &[]);
    let (outcome, _) = probe(&net, "example.com");
    let report = outcome.unwrap();
    assert_eq!(
        report.nsaddresses,
        vec![NSAddresses {
            ip: "192.0.2.1".to_string(),
            ptr: "".to_string(),
            referral_ns_soa: false,
            operational: false,
            authoritative: false,
            recursive: false,
            udp: false,
            tcp: true,
        }]
    );
}

#[test]
fn probe_gives_the_same_report_twice() {
    let net = example_net();
    let first = probe(&net, "example.com");
    let second = probe(&net, "example.com");
    assert_eq!(first, second);
    assert!(first.0.is_ok());
}

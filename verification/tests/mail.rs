use domain_check::email::{check_dnssec, check_email, check_record, dnssec_query, MailCheck};
use domain_check::query::{Query, RecordType, Reply, Step};
use domain_check::types::{CheckError, Email, Mx, DNSSEC};

struct Net {
    answers: Vec<(Query, Reply)>,
}

impl Net {
    fn new() -> Net {
        Net { answers: Vec::new() }
    }

    fn with(mut self, query: Query, records: &[&str]) -> Net {
        self.answers.push((query, Reply::Records(records.iter().map(|s| s.to_string()).collect())));
        self
    }

    fn answer(&self, query: &Query) -> Reply {
        for (known, reply) in &self.answers {
            if known == query {
                return reply.clone();
            }
        }
        Reply::Failure
    }
}

fn ask(name: &str, record_type: RecordType) -> Query {
    Query::Lookup { name: name.to_string(), record_type }
}

fn keys(name: &str) -> Query {
    Query::Validated { name: name.to_string(), record_type: RecordType::DNSKEY }
}

fn check(net: &Net, domain: &str) -> (Result<Email, CheckError>, Vec<Query>) {
    let mut state = MailCheck::new(domain);
    let mut asked = Vec::new();
    loop {
        let query = state.query();
        let reply = net.answer(&query);
        asked.push(query);
        match check_email(state, reply) {
            Step::Next(next) => state = next,
            Step::Done(outcome) => return (outcome, asked),
        }
    }
}

#[test]
fn exchanger_without_addresses_has_no_reverse_name() {
    let net = Net::new()
        .with(ask("example.com", RecordType::MX), &["example.com. 300 IN MX 10 mail.example.com"]);
    let (outcome, asked) = check(&net, "example.com");
    assert_eq!(
        outcome,
        Ok(Email {
            mx: vec![Mx {
                name: "mail.example.com".to_string(),
                ipv4: "".to_string(),
                ipv6: "".to_string(),
                ptr: "".to_string(),
                preference: 10,
                dnssec: false,
            }]
        })
    );
    assert_eq!(
        asked,
        vec![
            ask("example.com", RecordType::MX),
            ask("mail.example.com", RecordType::A),
            ask("mail.example.com", RecordType::AAAA),
            keys("mail.example.com"),
        ]
    );
}

#[test]
fn exchanger_with_addresses_is_looked_up_in_reverse() {
    let net = Net::new()
        .with(
            ask("example.com", RecordType::MX),
            &[
                "example.com. 300 IN MX 10 mail.example.com.",
                "example.com. 300 IN MX 20 backup.example.net.",
            ],
        )
        .with(
            ask("mail.example.com.", RecordType::A),
            &["mail.example.com. 60 IN A 192.0.2.25", "mail.example.com. 60 IN A 192.0.2.26"],
        )
        .with(ask("mail.example.com.", RecordType::AAAA), &["mail.example.com. 60 IN AAAA 2001:db8::25"])
        .with(
            ask("25.2.0.192.in-addr.arpa", RecordType::PTR),
            &["25.2.0.192.in-addr.arpa. 60 IN PTR mail.example.com."],
        )
        .with(keys("mail.example.com."), &["example.com. 60 IN DNSKEY 257 3 13 abcd"])
        .with(ask("backup.example.net.", RecordType::A), &[]);
    let (outcome, asked) = check(&net, "example.com");
    assert_eq!(
        outcome,
        Ok(Email {
            mx: vec![
                Mx {
                    name: "mail.example.com.".to_string(),
                    ipv4: "192.0.2.25".to_string(),
                    ipv6: "2001:db8::25".to_string(),
                    ptr: "mail.example.com.".to_string(),
                    preference: 10,
                    dnssec: true,
                },
                Mx {
                    name: "backup.example.net.".to_string(),
                    ipv4: "".to_string(),
                    ipv6: "".to_string(),
                    ptr: "".to_string(),
                    preference: 20,
                    dnssec: false,
                },
            ]
        })
    );
    assert_eq!(
        asked,
        vec![
            ask("example.com", RecordType::MX),
            ask("mail.example.com.", RecordType::A),
            ask("mail.example.com.", RecordType::AAAA),
            ask("25.2.0.192.in-addr.arpa", RecordType::PTR),
            keys("mail.example.com."),
            ask("backup.example.net.", RecordType::A),
            ask("backup.example.net.", RecordType::AAAA),
            keys("backup.example.net."),
        ]
    );
}

#[test]
fn domain_without_exchangers_has_no_report() {
    let (outcome, asked) = check(&Net::new(), "example.com");
    assert_eq!(outcome, Err(CheckError::NoMxRecords));
    assert_eq!(asked, vec![ask("example.com", RecordType::MX)]);
}

#[test]
fn answer_without_exchangers_is_an_empty_report() {
    let net = Net::new().with(ask("example.com", RecordType::MX), &[]);
    let (outcome, asked) = check(&net, "example.com");
    assert_eq!(outcome, Ok(Email { mx: vec![] }));
    assert_eq!(asked.len(), 1);
}

#[test]
fn preference_that_is_no_small_number_reads_as_zero() {
    let net = Net::new().with(
        ask("example.com", RecordType::MX),
        &["example.com. 300 IN MX 300 big.example.com.", "example.com. 300 IN MX"],
    );
    let (outcome, _) = check(&net, "example.com");
    let report = outcome.unwrap();
    assert_eq!(report.mx[0].preference, 0);
    assert_eq!(report.mx[0].name, "big.example.com.");
    assert_eq!(report.mx[1].preference, 0);
    assert_eq!(report.mx[1].name, "");
}

#[test]
fn failed_reverse_lookup_leaves_the_name_empty() {
    let net = Net::new()
        .with(ask("example.com", RecordType::MX), &["example.com. 300 IN MX 5 mx."])
        .with(ask("mx.", RecordType::A), &["mx. 60 IN A 198.51.100.7"]);
    let (outcome, asked) = check(&net, "example.com");
    let report = outcome.unwrap();
    assert_eq!(report.mx[0].ipv4, "198.51.100.7");
    assert_eq!(report.mx[0].ptr, "");
    assert!(asked.contains(&ask("7.100.51.198.in-addr.arpa", RecordType::PTR)));
}

#[test]
fn one_value_is_read_from_a_reply() {
    let reply = Reply::Records(vec![
        "mx. 60 IN A 198.51.100.7".to_string(),
        "mx. 60 IN A 198.51.100.8".to_string(),
    ]);
    assert_eq!(check_record(&reply), Some("198.51.100.7".to_string()));
    assert_eq!(check_record(&Reply::Records(vec![])), Some("".to_string()));
    assert_eq!(check_record(&Reply::Failure), None);
}

#[test]
fn zone_is_signed_where_the_validated_query_is_answered() {
    assert_eq!(dnssec_query("example.com"), keys("example.com"));
    assert_eq!(check_dnssec(&Reply::Records(vec![])), DNSSEC { dnssec_enabled: true });
    assert_eq!(check_dnssec(&Reply::Failure), DNSSEC { dnssec_enabled: false });
}

#[test]
fn check_gives_the_same_report_twice() {
    let net = Net::new()
        .with(ask("example.com", RecordType::MX), &["example.com. 300 IN MX 10 mail.example.com."])
        .with(ask("mail.example.com.", RecordType::A), &["mail.example.com. 60 IN A 192.0.2.25"]);
    let first = check(&net, "example.com");
    let second = check(&net, "example.com");
    assert_eq!(first, second);
    assert!(first.0.is_ok());
}

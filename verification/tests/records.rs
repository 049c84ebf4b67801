use domain_check::query::RecordType;
use domain_check::records::{
    caa_entry, first_record_value, flatten_record, last_record_head, mx_target, record_data,
    record_head, record_heads, record_tail, same_text, soa_record,
};
use domain_check::types::{CAARecords, CheckError, DnsRecord, SOARecord};

fn strings(items: &[&str]) -> Vec<String> {
    items.iter().map(|s| s.to_string()).collect()
}

#[test]
fn record_is_read_by_position() {
    assert_eq!(
        flatten_record("example.com. 3600 IN A 192.0.2.10", RecordType::A),
        DnsRecord {
            name: "example.com.".to_string(),
            ttl: "3600".to_string(),
            record_type: "A".to_string(),
            data: "192.0.2.10".to_string(),
        }
    );
}

#[test]
fn record_data_is_rejoined_with_single_spaces() {
    let record = flatten_record(
        "example.com.   300  IN  MX   10    mail.example.com.",
        RecordType::MX,
    );
    assert_eq!(record.data, "10 mail.example.com.");
    assert_eq!(record.record_type, "MX");
    let txt = flatten_record("example.com. 60 IN TXT \"v=spf1 -all\"", RecordType::TXT);
    assert_eq!(txt.data, "\"v=spf1 -all\"");
}

#[test]
fn short_record_reads_as_empty_fields() {
    assert_eq!(
        flatten_record("example.com. 3600 IN A", RecordType::A),
        DnsRecord {
            name: "example.com.".to_string(),
            ttl: "3600".to_string(),
            record_type: "A".to_string(),
            data: "".to_string(),
        }
    );
    assert_eq!(
        flatten_record("", RecordType::SSHFP),
        DnsRecord {
            name: "".to_string(),
            ttl: "".to_string(),
            record_type: "SSHFP".to_string(),
            data: "".to_string(),
        }
    );
    assert_eq!(record_data(&strings(&["a", "b", "c", "d"])), "");
    assert_eq!(record_data(&strings(&["a", "b", "c", "d", "e"])), "e");
    assert_eq!(record_data(&strings(&["a", "b", "c", "d", "e", "f"])), "e f");
}

#[test]
fn record_type_names_are_the_mnemonics() {
    let names: Vec<String> = [
        RecordType::A,
        RecordType::AAAA,
        RecordType::CNAME,
        RecordType::MX,
        RecordType::NS,
        RecordType::PTR,
        RecordType::SOA,
        RecordType::TXT,
        RecordType::CAA,
        RecordType::DNSKEY,
        RecordType::DS,
        RecordType::SSHFP,
        RecordType::SRV,
    ]
    .iter()
    .map(|t| t.name())
    .collect();
    assert_eq!(
        names,
        strings(&[
            "A", "AAAA", "CNAME", "MX", "NS", "PTR", "SOA", "TXT", "CAA", "DNSKEY", "DS",
            "SSHFP", "SRV"
        ])
    );
}

#[test]
fn head_and_tail_of_a_record() {
    assert_eq!(record_head("example.com. 3600 IN NS ns1.example.net."), "ns1.example.net.");
    assert_eq!(record_head("example.com. 3600 IN NS"), "");
    assert_eq!(record_tail("example.com. 3600 IN A 192.0.2.10"), "192.0.2.10");
    assert_eq!(record_tail("example.com. 300 IN MX 10 mail.example.com."), "mail.example.com.");
    assert_eq!(record_tail(""), "");
    assert_eq!(
        record_heads(&strings(&["a 1 IN A 192.0.2.1", "a 1 IN A 192.0.2.2", "a 1 IN A"])),
        strings(&["192.0.2.1", "192.0.2.2", ""])
    );
    assert_eq!(
        last_record_head(&strings(&["a 1 IN PTR one.", "a 1 IN PTR two."])),
        "two."
    );
    assert_eq!(last_record_head(&strings(&[])), "");
    assert_eq!(
        first_record_value(&strings(&["a 1 IN PTR one.", "a 1 IN PTR two."])),
        "one."
    );
    assert_eq!(first_record_value(&strings(&[])), "");
}

#[test]
fn caa_entry_reads_tag_and_value() {
    assert_eq!(
        caa_entry("example.com. 3600 IN CAA 0 issue \"ca.example.net\""),
        CAARecords {
            name: "example.com.".to_string(),
            caa_type: "issue".to_string(),
            data: "\"ca.example.net\"".to_string(),
        }
    );
    assert_eq!(
        caa_entry("example.com. 3600 IN CAA 128 iodef \"mailto:sec@example.com\""),
        CAARecords {
            name: "example.com.".to_string(),
            caa_type: "iodef".to_string(),
            data: "\"mailto:sec@example.com\"".to_string(),
        }
    );
}

#[test]
fn caa_entry_falls_back_one_position() {
    assert_eq!(
        caa_entry("example.com. 3600 IN CAA \"/issuewild/\""),
        CAARecords {
            name: "example.com.".to_string(),
            caa_type: "issuewild".to_string(),
            data: "".to_string(),
        }
    );
    assert_eq!(
        caa_entry("example.com. 3600 IN CAA 0 issue"),
        CAARecords {
            name: "example.com.".to_string(),
            caa_type: "issue".to_string(),
            data: "issue".to_string(),
        }
    );
    assert_eq!(
        caa_entry(""),
        CAARecords { name: "".to_string(), caa_type: "".to_string(), data: "".to_string() }
    );
}

#[test]
fn soa_record_reads_every_field() {
    assert_eq!(
        soa_record(
            "example.com. 3600 IN SOA ns1.example.com. hostmaster.example.com. 2024010101 7200 3600 1209600 300"
        ),
        SOARecord {
            primary_ns: "ns1.example.com.".to_string(),
            contact: "hostmaster.example.com.".to_string(),
            serial: "2024010101".to_string(),
            refresh: "7200".to_string(),
            retry: "3600".to_string(),
            expire: "1209600".to_string(),
            cache_ttl: "300".to_string(),
            soa_ttl: "3600".to_string(),
        }
    );
    assert_eq!(soa_record("example.com. 3600 IN SOA ns1.example.com.").contact, "");
}

#[test]
fn mx_target_reads_preference_and_exchanger() {
    assert_eq!(
        mx_target("example.com. 300 IN MX 10 mail.example.com."),
        (10, "mail.example.com.".to_string())
    );
    assert_eq!(
        mx_target("example.com. 300 IN MX 200 mail.example.com."),
        (0, "mail.example.com.".to_string())
    );
    assert_eq!(mx_target("example.com. 300 IN MX ten mail.example.com.").0, 0);
    assert_eq!(mx_target("example.com. 300 IN MX -5 mail.example.com.").0, -5);
    assert_eq!(mx_target("example.com. 300 IN MX"), (0, "".to_string()));
}

#[test]
fn texts_compare_by_content() {
    assert!(same_text("iodef", "iodef"));
    assert!(!same_text("iodef", "issue"));
    assert!(!same_text("iodef", "iodef "));
    assert!(same_text("", ""));
}

#[test]
fn every_error_has_its_reason() {
    assert_eq!(CheckError::NoCaaRecords.message(), "No CAA records found");
    assert_eq!(CheckError::NoNsRecords.message(), "No NS records found");
    assert_eq!(CheckError::NoMxRecords.message(), "No MX records found");
}

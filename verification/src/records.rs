//! Reading the fields of a rendered resource record.
//!
//! A record arrives in its canonical rendering, `name ttl class type
//! rdata..`, and is read by position: the rendering is cut at white space,
//! token 0 is the owner, token 1 the time to live, and the record data
//! begins at token 4. A position that the rendering does not have reads as
//! the empty text.

use vstd::prelude::*;
use crate::query::RecordType;
use crate::text::{
    are_words, field, join, join_with, lemma_texts_push, parse_i8, parse_small,
    split_whitespace, strip_quoting, texts, token_at, tokens, tokens_of_joined_words, unquoted,
};
use crate::types::{
    CAARecords, CAARecordsView, DnsRecord, DnsRecordView, SOARecord, SOARecordView,
};

verus! {

/// The record data of a tokenised record: the tokens from position 4 on,
/// with one space between neighbours.
pub open spec fn rdata(toks: Seq<Seq<char>>) -> Seq<char> {
    if toks.len() > 4 {
        join(toks.skip(4), " "@)
    } else {
        Seq::empty()
    }
}

/// The first token of the record data of a rendered record.
pub open spec fn rdata_head(rendered: Seq<char>) -> Seq<char> {
    field(tokens(rendered), 4)
}

/// The last token of a rendered record.
pub open spec fn last_token(rendered: Seq<char>) -> Seq<char> {
    let toks = tokens(rendered);
    if toks.len() > 0 {
        toks.last()
    } else {
        Seq::empty()
    }
}

/// The first token of the record data of each record.
pub open spec fn heads(records: Seq<Seq<char>>) -> Seq<Seq<char>> {
    Seq::new(records.len(), |i: int| rdata_head(records[i]))
}

/// The first token of the record data of the last record; empty where
/// there is no record.
pub open spec fn final_head(records: Seq<Seq<char>>) -> Seq<char> {
    if records.len() > 0 {
        rdata_head(records.last())
    } else {
        Seq::empty()
    }
}

/// The last token of the first record; empty where there is no record.
pub open spec fn first_value(records: Seq<Seq<char>>) -> Seq<char> {
    if records.len() > 0 {
        last_token(records[0])
    } else {
        Seq::empty()
    }
}

/// The flattened form of a rendered record that answered a query for
/// `record_type`.
pub open spec fn record_of(rendered: Seq<char>, record_type: RecordType) -> DnsRecordView {
    let toks = tokens(rendered);
    DnsRecordView {
        name: field(toks, 0),
        ttl: field(toks, 1),
        record_type: record_type.mnemonic(),
        data: rdata(toks),
    }
}

/// The flattened forms of the records of one answer.
pub open spec fn records_of(records: Seq<Seq<char>>, record_type: RecordType) -> Seq<
    DnsRecordView,
> {
    Seq::new(records.len(), |i: int| record_of(records[i], record_type))
}

/// The tag of a tokenised CAA record: token 5, or where there is none,
/// token 4 without its slashes and quotes.
pub open spec fn caa_tag(toks: Seq<Seq<char>>) -> Seq<char> {
    if field(toks, 5).len() == 0 {
        unquoted(field(toks, 4))
    } else {
        field(toks, 5)
    }
}

/// The value of a tokenised CAA record: token 6, or where there is none,
/// token 5.
pub open spec fn caa_value(toks: Seq<Seq<char>>) -> Seq<char> {
    if field(toks, 6).len() == 0 {
        field(toks, 5)
    } else {
        field(toks, 6)
    }
}

/// What a rendered CAA record says.
pub open spec fn caa_entry_of(rendered: Seq<char>) -> CAARecordsView {
    let toks = tokens(rendered);
    CAARecordsView { name: field(toks, 0), caa_type: caa_tag(toks), data: caa_value(toks) }
}

/// What a rendered SOA record says.
pub open spec fn soa_of(rendered: Seq<char>) -> SOARecordView {
    let toks = tokens(rendered);
    SOARecordView {
        primary_ns: field(toks, 4),
        contact: field(toks, 5),
        serial: field(toks, 6),
        refresh: field(toks, 7),
        retry: field(toks, 8),
        expire: field(toks, 9),
        cache_ttl: field(toks, 10),
        soa_ttl: field(toks, 1),
    }
}

/// The start of authority of a zone of which nothing is known.
pub open spec fn unknown_soa() -> SOARecordView {
    SOARecordView {
        primary_ns: Seq::empty(),
        contact: Seq::empty(),
        serial: Seq::empty(),
        refresh: Seq::empty(),
        retry: Seq::empty(),
        expire: Seq::empty(),
        cache_ttl: Seq::empty(),
        soa_ttl: Seq::empty(),
    }
}

/// What the answer to an SOA query says: the last record counts; without
/// an answer, and without a record in it, nothing is known.
pub open spec fn soa_from(reply: Option<Seq<Seq<char>>>) -> SOARecordView {
    match reply {
        Some(records) => if records.len() > 0 {
            soa_of(records.last())
        } else {
            unknown_soa()
        },
        None => unknown_soa(),
    }
}

/// The preference of a rendered MX record: token 4 as a small number, 0
/// where it is none.
pub open spec fn mx_preference(rendered: Seq<char>) -> i8 {
    match parse_i8(field(tokens(rendered), 4)) {
        Some(preference) => preference,
        None => 0,
    }
}

/// The exchanger of a rendered MX record: token 5.
pub open spec fn mx_exchanger(rendered: Seq<char>) -> Seq<char> {
    field(tokens(rendered), 5)
}

/// Whether `a` and `b` hold the same text.
pub fn same_text(a: &str, b: &str) -> (same: bool)
    ensures
        same == (a@ == b@),
{
    a.to_owned() == b.to_owned()
}

/// The record data of a tokenised record.
pub fn record_data(toks: &Vec<String>) -> (out: String)
    ensures
        out@ == rdata(texts(toks@)),
{
    if toks.len() <= 4 {
        return String::new();
    }
    let mut tail: Vec<String> = Vec::new();
    let mut i: usize = 4;
    while i < toks.len()
        invariant
            4 <= i <= toks.len(),
            texts(tail@) == texts(toks@).subrange(4, i as int),
        decreases toks.len() - i,
    {
        let token: String = toks[i].clone();
        proof {
            lemma_texts_push(tail@, token);
            assert(texts(toks@).subrange(4, i as int).push(token@) =~= texts(toks@).subrange(
                4,
                i + 1,
            ));
        }
        tail.push(token);
        i = i + 1;
    }
    proof {
        assert(texts(toks@).subrange(4, toks.len() as int) =~= texts(toks@).skip(4));
    }
    join_with(&tail, " ")
}

/// The first token of the record data of a rendered record.
pub fn record_head(rendered: &str) -> (out: String)
    ensures
        out@ == rdata_head(rendered@),
{
    let toks: Vec<String> = split_whitespace(rendered);
    token_at(&toks, 4)
}

/// The last token of a rendered record.
pub fn record_tail(rendered: &str) -> (out: String)
    ensures
        out@ == last_token(rendered@),
{
    let toks: Vec<String> = split_whitespace(rendered);
    if toks.len() > 0 {
        toks[toks.len() - 1].clone()
    } else {
        String::new()
    }
}

/// The first token of the record data of each record.
pub fn record_heads(records: &Vec<String>) -> (out: Vec<String>)
    ensures
        texts(out@) == heads(texts(records@)),
{
    let mut out: Vec<String> = Vec::new();
    let mut i: usize = 0;
    while i < records.len()
        invariant
            i <= records.len(),
            texts(out@) == heads(texts(records@)).take(i as int),
        decreases records.len() - i,
    {
        let head: String = record_head(records[i].as_str());
        proof {
            lemma_texts_push(out@, head);
            let all = heads(texts(records@));
            assert(all.take(i + 1) =~= all.take(i as int).push(all[i as int]));
        }
        out.push(head);
        i = i + 1;
    }
    proof {
        let all = heads(texts(records@));
        assert(all.take(records.len() as int) =~= all);
    }
    out
}

/// The first token of the record data of the last record.
pub fn last_record_head(records: &Vec<String>) -> (out: String)
    ensures
        out@ == final_head(texts(records@)),
{
    if records.len() > 0 {
        record_head(records[records.len() - 1].as_str())
    } else {
        String::new()
    }
}

/// The last token of the first record.
pub fn first_record_value(records: &Vec<String>) -> (out: String)
    ensures
        out@ == first_value(texts(records@)),
{
    if records.len() > 0 {
        record_tail(records[0].as_str())
    } else {
        String::new()
    }
}

/// Flattens a rendered record that answered a query for `record_type`.
pub fn flatten_record(rendered: &str, record_type: RecordType) -> (out: DnsRecord)
    ensures
        out@ == record_of(rendered@, record_type),
{
    let toks: Vec<String> = split_whitespace(rendered);
    DnsRecord {
        name: token_at(&toks, 0),
        ttl: token_at(&toks, 1),
        record_type: record_type.name(),
        data: record_data(&toks),
    }
}

/// Reads a rendered CAA record.
pub fn caa_entry(rendered: &str) -> (out: CAARecords)
    ensures
        out@ == caa_entry_of(rendered@),
{
    let toks: Vec<String> = split_whitespace(rendered);
    let fifth: String = token_at(&toks, 5);
    let sixth: String = token_at(&toks, 6);
    let tag: String = if fifth.as_str().is_empty() {
        strip_quoting(token_at(&toks, 4).as_str())
    } else {
        fifth.clone()
    };
    let value: String = if sixth.as_str().is_empty() {
        fifth
    } else {
        sixth
    };
    CAARecords { name: token_at(&toks, 0), caa_type: tag, data: value }
}

/// Reads a rendered SOA record.
pub fn soa_record(rendered: &str) -> (out: SOARecord)
    ensures
        out@ == soa_of(rendered@),
{
    let toks: Vec<String> = split_whitespace(rendered);
    SOARecord {
        primary_ns: token_at(&toks, 4),
        contact: token_at(&toks, 5),
        serial: token_at(&toks, 6),
        refresh: token_at(&toks, 7),
        retry: token_at(&toks, 8),
        expire: token_at(&toks, 9),
        cache_ttl: token_at(&toks, 10),
        soa_ttl: token_at(&toks, 1),
    }
}

/// The start of authority of a zone of which nothing is known.
pub fn no_soa() -> (out: SOARecord)
    ensures
        out@ == unknown_soa(),
{
    SOARecord {
        primary_ns: String::new(),
        contact: String::new(),
        serial: String::new(),
        refresh: String::new(),
        retry: String::new(),
        expire: String::new(),
        cache_ttl: String::new(),
        soa_ttl: String::new(),
    }
}

/// The preference and the exchanger of a rendered MX record.
pub fn mx_target(rendered: &str) -> (out: (i8, String))
    ensures
        out.0 == mx_preference(rendered@),
        out.1@ == mx_exchanger(rendered@),
{
    let toks: Vec<String> = split_whitespace(rendered);
    let preference: i8 = match parse_small(token_at(&toks, 4).as_str()) {
        Some(preference) => preference,
        None => 0,
    };
    (preference, token_at(&toks, 5))
}

/// A record that is rendered as words with single spaces between them is
/// read word by word: the owner is the first word, the time to live the
/// second, and the record data the words from the fifth on, as they were
/// rendered.
pub proof fn flattening_reads_the_rendering(words: Seq<Seq<char>>, record_type: RecordType)
    requires
        are_words(words),
        words.len() > 4,
    ensures
        record_of(join(words, " "@), record_type) == (DnsRecordView {
            name: words[0],
            ttl: words[1],
            record_type: record_type.mnemonic(),
            data: join(words.skip(4), " "@),
        }),
{
    reveal_strlit(" ");
    assert(" "@ =~= seq![' ']);
    tokens_of_joined_words(words);
}

/// A CAA record that is rendered with its flags, its tag and its value as
/// words of their own has that tag and that value.
pub proof fn caa_entry_reads_the_rendering(words: Seq<Seq<char>>)
    requires
        are_words(words),
        words.len() >= 7,
    ensures
        caa_entry_of(join(words, " "@)) == (CAARecordsView {
            name: words[0],
            caa_type: words[5],
            data: words[6],
        }),
{
    reveal_strlit(" ");
    assert(" "@ =~= seq![' ']);
    tokens_of_joined_words(words);
    assert(words[5].len() > 0);
    assert(words[6].len() > 0);
}

} // verus!

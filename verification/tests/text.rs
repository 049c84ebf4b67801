use domain_check::reverse::{
    expand_ipv6_address, ipv4_to_reverse_zone, ipv6_to_reverse_zone, AddressError,
};
use domain_check::text::{
    chars_of, is_space_char, join_with, parse_small, split_on, split_whitespace, strip_quoting,
    token_at,
};

fn strings(items: &[&str]) -> Vec<String> {
    items.iter().map(|s| s.to_string()).collect()
}

#[test]
fn tokens_are_runs_without_white_space() {
    assert_eq!(
        split_whitespace("example.com. 3600 IN A 192.0.2.10"),
        strings(&["example.com.", "3600", "IN", "A", "192.0.2.10"])
    );
    assert_eq!(split_whitespace("  a \t b\u{3000}c\n"), strings(&["a", "b", "c"]));
    assert_eq!(split_whitespace(""), Vec::<String>::new());
    assert_eq!(split_whitespace(" \t "), Vec::<String>::new());
}

#[test]
fn tokens_agree_with_std_on_every_white_space_character() {
    for code in 0u32..0x3100 {
        if let Some(c) = char::from_u32(code) {
            let text = format!("a{}b", c);
            let expected: Vec<String> = text.split_whitespace().map(|s| s.to_string()).collect();
            assert_eq!(split_whitespace(&text), expected);
        }
    }
}

#[test]
fn split_keeps_empty_pieces() {
    assert_eq!(split_on("192.0.2.10", "."), strings(&["192", "0", "2", "10"]));
    assert_eq!(split_on("", "."), strings(&[""]));
    assert_eq!(split_on(".a.", "."), strings(&["", "a", ""]));
    assert_eq!(split_on("2001:db8::1", "::"), strings(&["2001:db8", "1"]));
    assert_eq!(split_on("a:::b", "::"), strings(&["a", ":b"]));
    assert_eq!(split_on("::", "::"), strings(&["", ""]));
}

#[test]
fn join_puts_the_separator_between_neighbours() {
    assert_eq!(join_with(&strings(&["a", "b", "c"]), " "), "a b c");
    assert_eq!(join_with(&strings(&["a"]), " "), "a");
    assert_eq!(join_with(&strings(&[]), " "), "");
    assert_eq!(join_with(&strings(&["", ""]), "."), ".");
}

#[test]
fn quoting_is_removed_everywhere() {
    assert_eq!(strip_quoting("\"issue\""), "issue");
    assert_eq!(strip_quoting("/a/b\"c"), "abc");
    assert_eq!(strip_quoting(""), "");
}

#[test]
fn small_numbers_parse_as_std_parses_them() {
    let cases = [
        "0", "10", "+10", "-10", "127", "128", "-128", "-129", "", "+", "-", "1a", "a1", "0010",
        "00000000000127", "--1", "+-1", "1 ", "١", "999999999999999999999999", "-0", "+0",
    ];
    for case in cases {
        assert_eq!(parse_small(case), case.parse::<i8>().ok(), "{:?}", case);
    }
    assert_eq!(parse_small("10"), Some(10));
    assert_eq!(parse_small("-128"), Some(-128));
    assert_eq!(parse_small("128"), None);
}

#[test]
fn ipv4_zone_reverses_the_octets() {
    assert_eq!(ipv4_to_reverse_zone("192.0.2.10"), "10.2.0.192.in-addr.arpa");
    assert_eq!(ipv4_to_reverse_zone("8.8.4.4"), "4.4.8.8.in-addr.arpa");
    assert_eq!(ipv4_to_reverse_zone(""), ".in-addr.arpa");
}

#[test]
fn ipv6_expansion_fills_the_gap() {
    assert_eq!(
        expand_ipv6_address("2001:db8::1"),
        Ok("2001:0db8:0000:0000:0000:0000:0000:0001".to_string())
    );
    assert_eq!(
        expand_ipv6_address("2001:0db8:0000:0000:0000:0000:0000:0001"),
        Ok("2001:0db8:0000:0000:0000:0000:0000:0001".to_string())
    );
    assert_eq!(
        expand_ipv6_address("::1"),
        Ok("0000:0000:0000:0000:0000:0000:0000:0001".to_string())
    );
    assert_eq!(
        expand_ipv6_address("fe80::"),
        Ok("fe80:0000:0000:0000:0000:0000:0000:0000".to_string())
    );
    assert_eq!(
        expand_ipv6_address("::"),
        Ok("0000:0000:0000:0000:0000:0000:0000:0000".to_string())
    );
}

#[test]
fn ipv6_expansion_rejects_what_has_no_full_form() {
    assert_eq!(expand_ipv6_address("1::2::3"), Err(AddressError::MultipleCompression));
    assert_eq!(expand_ipv6_address("1:2:3:4:5:6:7:8:9"), Err(AddressError::TooManyGroups));
    assert_eq!(expand_ipv6_address("1:2:3:4:5::6:7:8:9"), Err(AddressError::TooManyGroups));
    assert_eq!(ipv6_to_reverse_zone("1::2::3"), Err(AddressError::MultipleCompression));
    assert_eq!(ipv6_to_reverse_zone("1:2:3:4:5:6:7:8:9"), Err(AddressError::TooManyGroups));
}

#[test]
fn ipv6_zone_is_the_same_for_both_forms() {
    let expected =
        "1.0.0.0.0.0.0.0.0.0.0.0.0.0.0.0.0.0.0.0.0.0.0.0.8.b.d.0.1.0.0.2.ip6.arpa".to_string();
    assert_eq!(ipv6_to_reverse_zone("2001:db8::1"), Ok(expected.clone()));
    assert_eq!(
        ipv6_to_reverse_zone("2001:0db8:0000:0000:0000:0000:0000:0001"),
        Ok(expected.clone())
    );
    assert_eq!(expected.split('.').count(), 34);
}

#[test]
fn white_space_is_what_std_calls_white_space() {
    for code in 0u32..=0x10FFFF {
        if let Some(c) = char::from_u32(code) {
            assert_eq!(is_space_char(c), c.is_whitespace(), "U+{:04X}", code);
        }
    }
}

#[test]
fn characters_and_tokens_by_position() {
    assert_eq!(chars_of("aé\u{1F600}"), vec!['a', 'é', '\u{1F600}']);
    assert_eq!(chars_of(""), Vec::<char>::new());
    let toks = strings(&["a", "b"]);
    assert_eq!(token_at(&toks, 0), "a");
    assert_eq!(token_at(&toks, 1), "b");
    assert_eq!(token_at(&toks, 2), "");
}

#[test]
fn empty_pattern_cuts_nowhere() {
    assert_eq!(split_on("a.b", ""), strings(&["a.b"]));
    assert_eq!(split_on("", ""), strings(&[""]));
}

#[test]
fn text_beyond_ascii_is_cut_by_characters() {
    assert_eq!(split_whitespace("é\u{2003}ü"), strings(&["é", "ü"]));
    assert_eq!(split_on("ä.ö.ü", "."), strings(&["ä", "ö", "ü"]));
    assert_eq!(ipv4_to_reverse_zone("ä.ö"), "ö.ä.in-addr.arpa");
    assert_eq!(join_with(&strings(&["é", "ü"]), "→"), "é→ü");
}

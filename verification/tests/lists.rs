use dns_benchmark::lists::{
    chars_of, classify_address, fallback_resolvers, is_whitespace, line_bounds, parse_list, parse_nameservers,
    parse_resolver_list, split_resolver_line, trim_bounds, AddressForm, ResolverEntry,
};

fn entry(address: &str, label: Option<&str>) -> ResolverEntry {
    ResolverEntry { address: address.to_string(), label: label.map(|l| l.to_string()) }
}

/// What the standard library makes of a domain list.
fn std_list(content: &str) -> Vec<String> {
    content
        .lines()
        .map(|line| line.trim().to_string())
        .filter(|line| !line.is_empty() && !line.starts_with('#'))
        .collect()
}

#[test]
fn white_space_is_what_the_standard_library_says() {
    for n in 0..=0x10ffffu32 {
        if let Some(c) = char::from_u32(n) {
            assert_eq!(is_whitespace(c), c.is_whitespace(), "U+{:04X}", n);
        }
    }
}

#[test]
fn characters_and_trimming() {
    assert_eq!(chars_of("a\u{e9}\u{3000}"), vec!['a', '\u{e9}', '\u{3000}']);
    assert!(chars_of("").is_empty());
    let chars = chars_of("  \t x y \u{a0}\r");
    assert_eq!(trim_bounds(&chars, 0, chars.len()), (4, 7));
    assert_eq!(trim_bounds(&chars, 5, chars.len()), (6, 7));
    assert_eq!(trim_bounds(&chars, 0, 4), (4, 4));
    assert_eq!(trim_bounds(&chars, 2, 2), (2, 2));
}

#[test]
fn lines_end_at_line_feeds() {
    assert_eq!(line_bounds(&chars_of("")), vec![(0, 0)]);
    assert_eq!(line_bounds(&chars_of("ab")), vec![(0, 2)]);
    assert_eq!(line_bounds(&chars_of("ab\n\ncd\n")), vec![(0, 2), (3, 3), (4, 6), (7, 7)]);
}

#[test]
fn lists_skip_blank_lines_and_comments() {
    let content = "# Warm domains\nexample.com\n\n  example.org  \r\n\t# a comment\nexample.net # kept as it is\n\u{a0}b\u{fc}cher.example\u{3000}\nlast.example";
    assert_eq!(
        parse_list(content),
        vec![
            "example.com",
            "example.org",
            "example.net # kept as it is",
            "b\u{fc}cher.example",
            "last.example",
        ]
    );
    assert!(parse_list("").is_empty());
    assert!(parse_list("\n\n  \n#\n").is_empty());
    for content in [content, "a\r\nb\rc\n", "\r\n\r\n x \r", "#a\n #b\nc#d", "one"] {
        assert_eq!(parse_list(content), std_list(content));
    }
}

#[test]
fn a_label_follows_the_hash() {
    let r = split_resolver_line("1.1.1.1  # Cloudflare");
    assert_eq!(r.label, Some("Cloudflare".to_string()));
    assert_eq!(r.address, "1.1.1.1");
}

#[test]
fn a_line_without_a_hash_has_no_label() {
    let r = split_resolver_line("8.8.8.8");
    assert_eq!(r.label, None);
    assert_eq!(r.address, "8.8.8.8");
}

#[test]
fn resolver_lines_split_at_the_first_hash() {
    assert_eq!(split_resolver_line("  9.9.9.9#Quad9 # filtered  "), entry("9.9.9.9", Some("Quad9 # filtered")));
    assert_eq!(split_resolver_line("9.9.9.9 #   "), entry("9.9.9.9", None));
    assert_eq!(split_resolver_line("9.9.9.9#"), entry("9.9.9.9", None));
    assert_eq!(split_resolver_line("# only a label"), entry("", Some("only a label")));
    assert_eq!(split_resolver_line("   "), entry("", None));
    assert_eq!(split_resolver_line("[::1]:53\t#\tlocal"), entry("[::1]:53", Some("local")));
}

#[test]
fn resolver_lists_hold_one_resolver_per_line() {
    let content = "# public resolvers\n1.1.1.1  # Cloudflare\n\n8.8.8.8\n  2606:4700::1111 #\n";
    assert_eq!(
        parse_resolver_list(content),
        vec![
            entry("1.1.1.1", Some("Cloudflare")),
            entry("8.8.8.8", None),
            entry("2606:4700::1111", None),
        ]
    );
    assert!(parse_resolver_list("#1.1.1.1\n").is_empty());
}

#[test]
fn addresses_are_told_apart_by_their_shape() {
    assert_eq!(classify_address("1.1.1.1"), (AddressForm::V4, "1.1.1.1".to_string()));
    assert_eq!(classify_address(" 8.8.8.8:5353 "), (AddressForm::V4, "8.8.8.8:5353".to_string()));
    assert_eq!(classify_address("2606:4700::1111"), (AddressForm::BareV6, "2606:4700::1111".to_string()));
    assert_eq!(classify_address("::1"), (AddressForm::BareV6, "::1".to_string()));
    assert_eq!(classify_address("1:2:3:4:5:6:7:8").0, AddressForm::BareV6);
    assert_eq!(classify_address("[2606:4700::1111]:53").0, AddressForm::Bracketed);
    assert_eq!(classify_address("[").0, AddressForm::Bracketed);
    assert_eq!(classify_address("not-an-ip").0, AddressForm::V4);
    assert_eq!(classify_address(""), (AddressForm::Empty, String::new()));
    assert_eq!(classify_address(" \t\n"), (AddressForm::Empty, String::new()));
}

#[test]
fn name_servers_are_the_second_word() {
    let content = "# Generated\nsearch example.com\nnameserver 192.0.2.1\n  nameserver\t2001:db8::1  # primary\nnameserver\nnameserverx 192.0.2.9 extra\noptions nameserver 192.0.2.7\nnameserver   \n";
    assert_eq!(parse_nameservers(content), vec!["192.0.2.1", "2001:db8::1", "192.0.2.9"]);
    assert!(parse_nameservers("").is_empty());
    assert_eq!(parse_nameservers("nameserver 10.0.0.1"), vec!["10.0.0.1"]);
}

#[test]
fn the_fallback_list_names_four_public_resolvers() {
    let defaults = fallback_resolvers();
    assert!(!defaults.is_empty());
    assert!(defaults.len() >= 4);
    let got: Vec<(&str, &str, u16)> =
        defaults.iter().map(|r| (r.label.as_str(), r.ip.as_str(), r.port)).collect();
    assert_eq!(
        got,
        vec![
            ("Cloudflare", "1.1.1.1", 53),
            ("Google", "8.8.8.8", 53),
            ("Quad9", "9.9.9.9", 53),
            ("OpenDNS", "208.67.222.222", 53),
        ]
    );
    assert!(defaults.iter().all(|r| !r.intercepts_nxdomain));
}

use smtp_addr::addr::{Addr, AddrError};

#[test]
fn parses_plain_address_and_normalizes_domain() {
    let addr = Addr::parse_envelope("LOCAL@Example.COM").expect("address should parse");
    assert_eq!(addr.local, "LOCAL");
    assert_eq!(addr.domain, "example.com");
    assert_eq!(addr.to_addr_spec(), "LOCAL@example.com");
}

#[test]
fn parses_bracketed_address_and_formats_output() {
    let addr = Addr::parse_envelope("  <bounce+tag@Sub.Example.com>  ")
        .expect("address should parse");
    assert_eq!(addr.local, "bounce+tag");
    assert_eq!(addr.domain, "sub.example.com");
    assert_eq!(addr.to_bracketed(), "<bounce+tag@sub.example.com>");
}

#[test]
fn parses_bracket_null_address() {
    let null_addr = Addr::parse_envelope(" <> ").expect("null `<>` address should parse");
    assert!(null_addr.is_null(), "addr is null")
}

#[test]
fn trims_whitespace_and_preserves_local_case() {
    let addr =
        Addr::parse_envelope("\n <MixedCase@Example.ORG>\t").expect("address should parse");
    assert_eq!(addr.local, "MixedCase");
    assert_eq!(addr.domain, "example.org");
    assert_eq!(addr.to_addr_spec(), "MixedCase@example.org");
}

#[test]
fn rejects_invalid_or_display_name_forms() {
    let cases = [
        "",
        "missingatsign",
        "local@",
        "@domain",
        "Name <alice@example.com>",
        "<alice@example.com",
        "alice@example.com>",
        "<@example.com>",
    ];

    for case in cases {
        assert!(Addr::parse_envelope(case).is_err(), "{case:?} should be rejected");
    }
}

#[test]
fn rejects_addr_specs_with_whitespace() {
    let cases = ["alice smith@example.com", "<alice smith@example.com>", "alice@exa mple.com"];

    for case in cases {
        assert!(Addr::parse_envelope(case).is_err(), "{case:?} should be rejected");
    }
}

#[test]
fn rejects_addresses_with_multiple_ats_or_nested_brackets() {
    let cases =
        ["alice@@example.com", "alice@example@com", "<<alice@example.com>>", "<ali<ce>@example.com>"];

    for case in cases {
        assert!(Addr::parse_envelope(case).is_err(), "{case:?} should be rejected");
    }
}

#[test]
fn supports_internationalized_components() {
    let addr = Addr::parse_envelope("δοκιμή@MÜNICH.Example.COM")
        .expect("unicode address should parse");
    assert_eq!(addr.local, "δοκιμή");
    assert_eq!(addr.domain, "mÜnich.example.com");
    assert_eq!(addr.to_addr_spec(), "δοκιμή@mÜnich.example.com");
}

#[test]
fn parses_unicode_domain_and_local_part() {
    let addr = Addr::parse_envelope("álïcé@例え.テスト").expect("unicode address should parse");
    assert_eq!(addr.local, "álïcé");
    assert_eq!(addr.domain, "例え.テスト");
    assert_eq!(addr.to_addr_spec(), "álïcé@例え.テスト");
}

#[test]
fn each_rejection_gives_its_reason() {
    let cases = [
        ("", AddrError::Empty),
        ("missingatsign", AddrError::MissingAt),
        ("local@", AddrError::Empty),
        ("@domain", AddrError::Empty),
        ("Name alice@example.com", AddrError::Whitespace),
        ("<alice@example.com", AddrError::InvalidBrackets),
        ("alice@example.com>", AddrError::InvalidBrackets),
        ("<@example.com>", AddrError::Empty),
        ("alice@@example.com", AddrError::InvalidCharacter),
        ("<<alice@example.com>>", AddrError::InvalidBrackets),
    ];
    for (input, reason) in cases {
        assert_eq!(Addr::parse_envelope(input), Err(reason), "{input:?}");
    }
}

#[test]
fn whitespace_inside_is_refused_as_whitespace() {
    let cases = [
        "alice smith@example.com",
        "<alice smith@example.com>",
        "alice@exa mple.com",
        "<   >",
        "< >",
        "< alice@example.com>",
        "<alice@example.com >",
        "alice\u{3000}smith@example.com",
        "alice@exa\u{00A0}mple.com",
        "a\tb@c",
    ];
    for case in cases {
        assert_eq!(Addr::parse_envelope(case), Err(AddrError::Whitespace), "{case:?}");
    }
}

#[test]
fn whitespace_comes_before_brackets_and_before_the_separator() {
    assert_eq!(Addr::parse_envelope("a <b"), Err(AddrError::Whitespace));
    assert_eq!(Addr::parse_envelope("no at"), Err(AddrError::Whitespace));
    assert_eq!(Addr::parse_envelope("a<b"), Err(AddrError::InvalidBrackets));
    assert_eq!(Addr::parse_envelope("a>b@c"), Err(AddrError::InvalidBrackets));
    assert_eq!(Addr::parse_envelope("a@b<c@d"), Err(AddrError::InvalidBrackets));
}

#[test]
fn lone_and_nested_brackets_are_refused() {
    let cases = [
        "<",
        ">",
        "<<>>",
        "<<>",
        "<>>",
        "><",
        "<a@b>>",
        "<<a@b>",
        "<ali<ce>@example.com>",
        "a@b>",
        "<a@b",
    ];
    for case in cases {
        assert_eq!(Addr::parse_envelope(case), Err(AddrError::InvalidBrackets), "{case:?}");
    }
}

#[test]
fn empty_residues_are_refused_as_empty() {
    let cases = ["", "   ", "\t\n", "@", "<@>", "a@", "@b", "<a@>", "<@b>", "\u{2003}"];
    for case in cases {
        assert_eq!(Addr::parse_envelope(case), Err(AddrError::Empty), "{case:?}");
    }
}

#[test]
fn a_second_separator_is_an_invalid_character() {
    let cases = ["alice@@example.com", "alice@example@com", "a@b@", "<a@b@c>", "a@@"];
    for case in cases {
        assert_eq!(Addr::parse_envelope(case), Err(AddrError::InvalidCharacter), "{case:?}");
    }
}

#[test]
fn a_text_without_separator_misses_it() {
    let cases = ["missingatsign", "<missingatsign>", "  x  ", "δοκιμή"];
    for case in cases {
        assert_eq!(Addr::parse_envelope(case), Err(AddrError::MissingAt), "{case:?}");
    }
}

#[test]
fn null_address_is_read_however_it_is_padded() {
    let null = Addr { local: String::new(), domain: String::new() };
    for input in ["<>", " <> ", "\t<>\n", "\u{00A0}<>\u{3000}", "\r\n<>"] {
        assert_eq!(Addr::parse_envelope(input), Ok(null.clone()), "{input:?}");
    }
    assert!(null.is_null());
    assert_eq!(null.to_addr_spec(), "@");
    assert_eq!(null.to_bracketed(), "<@>");
    assert_eq!(null.to_string(), "<>");
}

#[test]
fn padding_around_an_address_does_not_count() {
    let bare = Addr::parse_envelope("a@B.c");
    assert_eq!(bare, Ok(Addr { local: "a".to_string(), domain: "b.c".to_string() }));
    for input in [" a@B.c", "a@B.c ", "\t a@B.c\r\n", "\u{2028}a@B.c\u{205F}", " <a@B.c>\n"] {
        assert_eq!(Addr::parse_envelope(input), bare, "{input:?}");
    }
}

#[test]
fn case_is_kept_in_the_local_part_and_lowered_in_the_domain() {
    let addr = Addr::parse_envelope("LOCAL@Example.COM").unwrap();
    assert_eq!(addr.local, "LOCAL");
    assert_eq!(addr.domain, "example.com");
    let all = Addr::parse_envelope("AZaz@ABCDEFGHIJKLMNOPQRSTUVWXYZ[`{").unwrap();
    assert_eq!(all.local, "AZaz");
    assert_eq!(all.domain, "abcdefghijklmnopqrstuvwxyz[`{");
}

#[test]
fn only_ascii_letters_are_lowered() {
    let addr = Addr::parse_envelope("δοκιμή@MÜNICH.Example.COM").unwrap();
    assert_eq!(addr.local, "δοκιμή");
    assert_eq!(addr.domain, "mÜnich.example.com");
    let greek = Addr::parse_envelope("x@ΔΟΚΙΜΉ.ẞ.İ").unwrap();
    assert_eq!(greek.domain, "ΔΟΚΙΜΉ.ẞ.İ");
}

#[test]
fn reading_the_written_form_gives_the_address_back() {
    let inputs = [
        "LOCAL@Example.COM",
        "  <bounce+tag@Sub.Example.com>  ",
        "δοκιμή@MÜNICH.Example.COM",
        "álïcé@例え.テスト",
        "a@b",
        "<\"quoted\"@Host>",
    ];
    for input in inputs {
        let addr = Addr::parse_envelope(input).unwrap();
        assert!(!addr.is_null());
        assert_eq!(Addr::parse_envelope(&addr.to_addr_spec()), Ok(addr.clone()), "{input:?}");
        assert_eq!(Addr::parse_envelope(&addr.to_bracketed()), Ok(addr.clone()), "{input:?}");
        assert_eq!(Addr::parse_envelope(&addr.to_string()), Ok(addr), "{input:?}");
    }
}

#[test]
fn the_null_address_is_not_read_back_from_its_bare_form() {
    let null = Addr::parse_envelope("<>").unwrap();
    assert_eq!(Addr::parse_envelope(&null.to_addr_spec()), Err(AddrError::Empty));
    assert_eq!(Addr::parse_envelope(&null.to_string()), Ok(null));
}

#[test]
fn a_parsed_domain_is_already_in_lower_case() {
    for input in ["LOCAL@Example.COM", "x@MÜNICH.Example.COM", "<A@B>", "<>"] {
        let addr = Addr::parse_envelope(input).unwrap();
        assert_eq!(addr.domain.to_ascii_lowercase(), addr.domain, "{input:?}");
        let again = Addr::parse_envelope(&addr.to_string()).unwrap();
        assert_eq!(again.domain, addr.domain);
    }
}

#[test]
fn brackets_go_in_pairs() {
    let parts = [("alice", "example.com"), ("A", "B"), ("δοκιμή", "MÜNICH.Example.COM")];
    for (local, domain) in parts {
        let bare = format!("{local}@{domain}");
        let expected = Addr { local: local.to_string(), domain: domain.to_ascii_lowercase() };
        assert_eq!(Addr::parse_envelope(&bare), Ok(expected.clone()));
        assert_eq!(Addr::parse_envelope(&format!("<{bare}>")), Ok(expected));
        assert_eq!(Addr::parse_envelope(&format!("<{bare}")), Err(AddrError::InvalidBrackets));
        assert_eq!(Addr::parse_envelope(&format!("{bare}>")), Err(AddrError::InvalidBrackets));
    }
}

#[test]
fn parsed_addresses_have_both_parts_or_none() {
    let inputs = ["<>", "a@b", " <a@b> ", "", "a@", "@b", "<@>", "x"];
    for input in inputs {
        if let Ok(addr) = Addr::parse_envelope(input) {
            assert_eq!(addr.local.is_empty(), addr.domain.is_empty(), "{input:?}");
        }
    }
}

#[test]
fn from_str_parses_as_parse_envelope_does() {
    let inputs = ["<>", "a@B", " <a@b> ", "", "a@", "a b@c", "<a@b", "a@b@c", "x"];
    for input in inputs {
        assert_eq!(input.parse::<Addr>(), Addr::parse_envelope(input), "{input:?}");
    }
    let addr: Addr = "Postmaster@Example.NET".parse().unwrap();
    assert_eq!(addr.local, "Postmaster");
    assert_eq!(addr.domain, "example.net");
}

#[test]
fn a_display_name_before_brackets_is_refused_for_the_unopened_bracket() {
    let r = Addr::parse_envelope("Name <alice@example.com>");
    assert!(r.is_err());
    assert_eq!(r, Err(AddrError::InvalidBrackets));
    assert_eq!(Addr::parse_envelope("<alice@example.com> Name"), Err(AddrError::InvalidBrackets));
    assert_eq!(Addr::parse_envelope("Name <alice@example.com"), Err(AddrError::Whitespace));
}

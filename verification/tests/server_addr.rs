use freemail_shared::server_addr::{
    HostError, ParseError, ServerAddr, ServerAddrError,
};

#[test]
fn construct_keeps_host_and_port() {
    let a = ServerAddr::new(String::from("mail.example.com"), 25).unwrap();
    assert_eq!(a.host(), "mail.example.com");
    assert_eq!(*a.port(), 25);
}

#[test]
fn empty_host_is_blank() {
    assert_eq!(
        ServerAddr::new(String::new(), 25).unwrap_err(),
        ServerAddrError::HostError(HostError::Blank)
    );
}

#[test]
fn all_blank_host_is_blank() {
    assert_eq!(
        ServerAddr::new(String::from(" "), 25).unwrap_err(),
        ServerAddrError::HostError(HostError::Blank)
    );
}

#[test]
fn host_with_inner_blank_is_rejected() {
    assert_eq!(
        ServerAddr::new(String::from("ho st"), 25).unwrap_err(),
        ServerAddrError::HostError(HostError::HasBlankChar)
    );
}

#[test]
fn parse_well_formed_address() {
    let a = ServerAddr::parse("mail.example.com:25").unwrap();
    assert_eq!(a.host(), "mail.example.com");
    assert_eq!(*a.port(), 25);
}

#[test]
fn parse_blank_address() {
    assert_eq!(
        ServerAddr::parse("").unwrap_err(),
        ServerAddrError::ParseError(ParseError::Blank)
    );
    assert_eq!(
        ServerAddr::parse(" \t").unwrap_err(),
        ServerAddrError::ParseError(ParseError::Blank)
    );
}

#[test]
fn parse_address_with_blank_character() {
    assert_eq!(
        ServerAddr::parse("host name:25").unwrap_err(),
        ServerAddrError::ParseError(ParseError::HasBlankChar)
    );
}

#[test]
fn parse_rejects_missing_delimiter() {
    assert_eq!(
        ServerAddr::parse("hostport").unwrap_err(),
        ServerAddrError::ParseError(ParseError::InvalidDelimiterCount {
            expected: 1,
            supplied: 0,
        })
    );
}

#[test]
fn parse_rejects_extra_delimiters() {
    assert_eq!(
        ServerAddr::parse("a:b:25").unwrap_err(),
        ServerAddrError::ParseError(ParseError::InvalidDelimiterCount {
            expected: 1,
            supplied: 2,
        })
    );
}

#[test]
fn parse_rejects_port_out_of_range() {
    assert_eq!(
        ServerAddr::parse("host:99999").unwrap_err(),
        ServerAddrError::ParseError(ParseError::InvalidPort)
    );
}

#[test]
fn parse_rejects_non_numeric_port() {
    assert_eq!(
        ServerAddr::parse("host:").unwrap_err(),
        ServerAddrError::ParseError(ParseError::InvalidPort)
    );
    assert_eq!(
        ServerAddr::parse("host:2x5").unwrap_err(),
        ServerAddrError::ParseError(ParseError::InvalidPort)
    );
}

#[test]
fn parse_accepts_port_zero() {
    let a = ServerAddr::parse("host:0").unwrap();
    assert_eq!(a.host(), "host");
    assert_eq!(*a.port(), 0);
}

#[test]
fn parse_accepts_port_maximum() {
    let a = ServerAddr::parse("host:65535").unwrap();
    assert_eq!(*a.port(), 65535);
}

#[test]
fn parse_rejects_one_above_port_maximum() {
    assert_eq!(
        ServerAddr::parse("host:65536").unwrap_err(),
        ServerAddrError::ParseError(ParseError::InvalidPort)
    );
}

#[test]
fn parse_blank_host_part() {
    assert_eq!(
        ServerAddr::parse(":25").unwrap_err(),
        ServerAddrError::HostError(HostError::Blank)
    );
}

#[test]
fn to_string_renders_host_colon_port() {
    let a = ServerAddr::new(String::from("mail.example.com"), 25).unwrap();
    assert_eq!(a.to_string(), "mail.example.com:25");
    let z = ServerAddr::new(String::from("h"), 0).unwrap();
    assert_eq!(z.to_string(), "h:0");
    let m = ServerAddr::new(String::from("h"), 65535).unwrap();
    assert_eq!(m.to_string(), "h:65535");
}

#[test]
fn round_trip_through_text() {
    let a = ServerAddr::new(String::from("smtp.example.org"), 587).unwrap();
    let b = ServerAddr::parse(&a.to_string()).unwrap();
    assert_eq!(a, b);
}

#[test]
fn ordering_and_equality() {
    let a = ServerAddr::new(String::from("a"), 1).unwrap();
    let b = ServerAddr::new(String::from("a"), 2).unwrap();
    assert!(a < b);
    assert_eq!(a, a.clone());
}

use authd::socketname::{IntParseError, SocketName, SocketNameError};

fn parse(s: &str) -> Result<SocketName, SocketNameError> {
    SocketName::from_str(s)
}

#[test]
fn literal_ipv4_is_an_address() {
    match parse("1.2.3.4:80").unwrap() {
        SocketName::Addr(sa) => {
            assert_eq!(sa.octets, [1, 2, 3, 4]);
            assert_eq!(sa.port, 80);
        }
        _ => panic!("literal address parsed as host name"),
    }
}

#[test]
fn loopback_with_high_port() {
    match parse("127.0.0.1:8765").unwrap() {
        SocketName::Addr(sa) => {
            assert_eq!(sa.octets, [127, 0, 0, 1]);
            assert_eq!(sa.port, 8765);
        }
        _ => panic!("literal address parsed as host name"),
    }
}

#[test]
fn port_with_leading_zeros_in_literal() {
    match parse("10.0.0.2:0080").unwrap() {
        SocketName::Addr(sa) => {
            assert_eq!(sa.octets, [10, 0, 0, 2]);
            assert_eq!(sa.port, 80);
        }
        _ => panic!("literal address parsed as host name"),
    }
}

#[test]
fn host_and_port_resolve_later() {
    match parse("auth.example.org:8765").unwrap() {
        SocketName::Dns(host, port) => {
            assert_eq!(host, "auth.example.org");
            assert_eq!(port, 8765);
        }
        _ => panic!("host name parsed as literal address"),
    }
}

#[test]
fn only_the_text_after_the_first_colon_is_the_port() {
    match parse("host:1:2").unwrap() {
        SocketName::Dns(host, port) => {
            assert_eq!(host, "host");
            assert_eq!(port, 1);
        }
        _ => panic!("host name parsed as literal address"),
    }
}

#[test]
fn octet_out_of_range_falls_back_to_host_name() {
    match parse("256.1.1.1:5").unwrap() {
        SocketName::Dns(host, port) => {
            assert_eq!(host, "256.1.1.1");
            assert_eq!(port, 5);
        }
        _ => panic!("out-of-range octet accepted as literal"),
    }
}

#[test]
fn octet_with_leading_zero_falls_back_to_host_name() {
    match parse("01.2.3.4:5").unwrap() {
        SocketName::Dns(host, port) => {
            assert_eq!(host, "01.2.3.4");
            assert_eq!(port, 5);
        }
        _ => panic!("leading-zero octet accepted as literal"),
    }
}

#[test]
fn signed_port_is_a_host_name_port() {
    match parse("1.2.3.4:+80").unwrap() {
        SocketName::Dns(host, port) => {
            assert_eq!(host, "1.2.3.4");
            assert_eq!(port, 80);
        }
        _ => panic!("signed port accepted in a literal"),
    }
}

#[test]
fn no_colon_is_a_format_error() {
    assert_eq!(parse("nocolon").unwrap_err(), SocketNameError::FormatError);
    assert_eq!(parse("").unwrap_err(), SocketNameError::FormatError);
}

#[test]
fn empty_port_is_an_error() {
    assert_eq!(
        parse("host:").unwrap_err(),
        SocketNameError::ParseIntError(IntParseError::Empty)
    );
}

#[test]
fn non_numeric_port_is_an_error() {
    assert_eq!(
        parse("host:x").unwrap_err(),
        SocketNameError::ParseIntError(IntParseError::InvalidDigit)
    );
    assert_eq!(
        parse("host:+").unwrap_err(),
        SocketNameError::ParseIntError(IntParseError::InvalidDigit)
    );
    assert_eq!(
        parse("host:-1").unwrap_err(),
        SocketNameError::ParseIntError(IntParseError::InvalidDigit)
    );
}

#[test]
fn oversized_port_is_an_error() {
    assert_eq!(
        parse("host:70000").unwrap_err(),
        SocketNameError::ParseIntError(IntParseError::PosOverflow)
    );
    assert_eq!(
        parse("1.2.3.4:70000").unwrap_err(),
        SocketNameError::ParseIntError(IntParseError::PosOverflow)
    );
}

#[test]
fn error_messages() {
    assert_eq!(
        SocketNameError::FormatError.message(),
        "Doesn't match the either format. Expect something like 'auth.cosi.clarkson.edu:8765' or '128.153.145.3'."
    );
    assert_eq!(
        SocketNameError::ParseIntError(IntParseError::Empty).message(),
        "cannot parse integer from empty string"
    );
    assert_eq!(
        SocketNameError::ParseIntError(IntParseError::InvalidDigit).message(),
        "invalid digit found in string"
    );
    assert_eq!(
        SocketNameError::ParseIntError(IntParseError::PosOverflow).message(),
        "number too large to fit in target type"
    );
}

#[test]
fn largest_port_is_accepted() {
    match parse("255.255.255.255:65535").unwrap() {
        SocketName::Addr(sa) => {
            assert_eq!(sa.octets, [255, 255, 255, 255]);
            assert_eq!(sa.port, 65535);
        }
        _ => panic!("literal address parsed as host name"),
    }
    match parse("host:65535").unwrap() {
        SocketName::Dns(_, port) => assert_eq!(port, 65535),
        _ => panic!("host name parsed as literal address"),
    }
}

#[test]
fn one_past_the_largest_port_overflows() {
    assert_eq!(
        parse("host:65536").unwrap_err(),
        SocketNameError::ParseIntError(IntParseError::PosOverflow)
    );
}

#[test]
fn bracketed_loopback_is_an_ipv6_address() {
    match parse("[::1]:8080").unwrap() {
        SocketName::Addr6(sa) => {
            assert_eq!(sa.segments, [0, 0, 0, 0, 0, 0, 0, 1]);
            assert_eq!(sa.scope_id, 0);
            assert_eq!(sa.port, 8080);
        }
        _ => panic!("bracketed literal parsed as something else"),
    }
}

#[test]
fn full_ipv6_literal() {
    match parse("[1:2:3:4:5:6:7:8]:1").unwrap() {
        SocketName::Addr6(sa) => {
            assert_eq!(sa.segments, [1, 2, 3, 4, 5, 6, 7, 8]);
            assert_eq!(sa.port, 1);
        }
        _ => panic!("bracketed literal parsed as something else"),
    }
}

#[test]
fn compressed_ipv6_literal_with_hex_groups() {
    match parse("[2001:db8::8a2e:370:7334]:443").unwrap() {
        SocketName::Addr6(sa) => {
            assert_eq!(sa.segments, [0x2001, 0xdb8, 0, 0, 0, 0x8a2e, 0x370, 0x7334]);
            assert_eq!(sa.port, 443);
        }
        _ => panic!("bracketed literal parsed as something else"),
    }
}

#[test]
fn unspecified_ipv6_address_and_port_zero() {
    match parse("[::]:0").unwrap() {
        SocketName::Addr6(sa) => {
            assert_eq!(sa.segments, [0, 0, 0, 0, 0, 0, 0, 0]);
            assert_eq!(sa.port, 0);
        }
        _ => panic!("bracketed literal parsed as something else"),
    }
}

#[test]
fn ipv6_literal_with_embedded_ipv4() {
    match parse("[::ffff:192.168.1.10]:80").unwrap() {
        SocketName::Addr6(sa) => {
            assert_eq!(sa.segments, [0, 0, 0, 0, 0, 0xffff, 0xc0a8, 0x010a]);
            assert_eq!(sa.port, 80);
        }
        _ => panic!("bracketed literal parsed as something else"),
    }
}

#[test]
fn ipv6_literal_with_scope() {
    match parse("[fe80::1%25]:22").unwrap() {
        SocketName::Addr6(sa) => {
            assert_eq!(sa.segments, [0xfe80, 0, 0, 0, 0, 0, 0, 1]);
            assert_eq!(sa.scope_id, 25);
            assert_eq!(sa.port, 22);
        }
        _ => panic!("bracketed literal parsed as something else"),
    }
}

#[test]
fn uppercase_hex_groups_are_accepted() {
    match parse("[ABCD:EF01::2]:7").unwrap() {
        SocketName::Addr6(sa) => {
            assert_eq!(sa.segments, [0xabcd, 0xef01, 0, 0, 0, 0, 0, 2]);
            assert_eq!(sa.port, 7);
        }
        _ => panic!("bracketed literal parsed as something else"),
    }
}

#[test]
fn malformed_bracketed_literal_is_an_error() {
    // a second compression is refused, and the string then fails as a
    // host:port pair on its empty port text
    assert_eq!(
        parse("[:::1]:80").unwrap_err(),
        SocketNameError::ParseIntError(IntParseError::Empty)
    );
    // a missing port fails the same way
    assert_eq!(
        parse("[::1]").unwrap_err(),
        SocketNameError::ParseIntError(IntParseError::Empty)
    );
    // a named scope is not numeric
    assert_eq!(
        parse("[fe80::1%eth0]:22").unwrap_err(),
        SocketNameError::ParseIntError(IntParseError::Empty)
    );
}

#[test]
fn nine_groups_fall_back_to_the_host_name_quirk() {
    match parse("[1:2:3:4:5:6:7:8:9]:1").unwrap() {
        SocketName::Dns(host, port) => {
            assert_eq!(host, "[1");
            assert_eq!(port, 2);
        }
        _ => panic!("malformed literal parsed as an address"),
    }
}

//! Tunnel arguments.

use eternal_terminal::messages::PortForwardSourceRequest;
use eternal_terminal::tunnel::{parse_ranges, TunnelParseError};

fn src(req: &PortForwardSourceRequest) -> (Option<String>, Option<i32>) {
    let s = req.source.as_ref().expect("source set");
    (s.name.clone(), s.port)
}

fn dst(req: &PortForwardSourceRequest) -> (Option<String>, Option<i32>) {
    let d = req.destination.as_ref().expect("destination set");
    (d.name.clone(), d.port)
}

#[test]
fn single_port_pair_matches_upstream() {
    let reqs = parse_ranges("18000:8000").unwrap();
    assert_eq!(reqs.len(), 1);
    assert_eq!(src(&reqs[0]), (Some("localhost".into()), Some(18000)));
    assert_eq!(dst(&reqs[0]), (None, Some(8000)));
}

#[test]
fn ranges_expand_pairwise() {
    let reqs = parse_ranges("18001-18003:8001-8003").unwrap();
    assert_eq!(reqs.len(), 3);
    for (i, req) in reqs.iter().enumerate() {
        assert_eq!(src(req), (Some("localhost".into()), Some(18001 + i as i32)));
        assert_eq!(dst(req), (None, Some(8001 + i as i32)));
    }
}

#[test]
fn comma_separated_mix() {
    let reqs = parse_ranges("18000:8000, 2222:22").unwrap();
    assert_eq!(reqs.len(), 2);
    assert_eq!(src(&reqs[1]), (Some("localhost".into()), Some(2222)));
    assert_eq!(dst(&reqs[1]), (None, Some(22)));
}

#[test]
fn ssh_style_four_parts() {
    let reqs = parse_ranges("127.0.0.1:18000:example.com:80").unwrap();
    assert_eq!(reqs.len(), 1);
    assert_eq!(src(&reqs[0]), (Some("127.0.0.1".into()), Some(18000)));
    assert_eq!(dst(&reqs[0]), (Some("example.com".into()), Some(80)));
}

#[test]
fn mismatched_range_lengths_rejected() {
    assert!(matches!(
        parse_ranges("18000-18002:8000-8001"),
        Err(TunnelParseError::RangeLengthMismatch)
    ));
    assert!(matches!(parse_ranges("18000-18002:8000"), Err(TunnelParseError::HalfRange)));
    assert!(matches!(parse_ranges("18000"), Err(TunnelParseError::MissingDestination)));
}

#[test]
fn unix_socket_forms_parse_but_are_reported_unsupported() {
    assert!(matches!(
        parse_ranges("/tmp/sock:8080"),
        Err(TunnelParseError::UnsupportedSocket(_))
    ));
    assert!(matches!(
        parse_ranges("ENV_VAR:/var/run/example.sock"),
        Err(TunnelParseError::UnsupportedSocket(_))
    ));
    assert_eq!(
        parse_ranges("8080:/tmp/sock"),
        Err(TunnelParseError::UnsupportedSocket("/tmp/sock".into()))
    );
}

#[test]
fn out_of_range_ports_are_rejected_not_truncated() {
    for input in ["70000:80", "80:70000", "65536:65536"] {
        assert!(
            matches!(parse_ranges(input), Err(TunnelParseError::PortOutOfRange(_))),
            "{input} must be rejected as out of range"
        );
    }
    assert!(matches!(
        parse_ranges("127.0.0.1:70000:example.com:80"),
        Err(TunnelParseError::PortOutOfRange(_))
    ));
    assert!(parse_ranges("65535:0").is_ok());
    assert!(parse_ranges("0:65535").is_ok());
}

#[test]
fn brackets_keep_colons_together() {
    let reqs = parse_ranges("[::1]:8080:[::]:9090").unwrap();
    assert_eq!(src(&reqs[0]), (Some("::1".into()), Some(8080)));
    assert_eq!(dst(&reqs[0]), (Some("::".into()), Some(9090)));
    assert_eq!(
        parse_ranges("a:1:b"),
        Err(TunnelParseError::Invalid(
            "a:1:b".into(),
            "the 4 part ssh-style tunneling arg (bind_address:port:host:hostport) must be supplied"
                .into()
        ))
    );
    assert_eq!(
        parse_ranges("::1:8080:h:9090"),
        Err(TunnelParseError::Invalid(
            "::1:8080:h:9090".into(),
            "ipv6 addresses must be inside of square brackets, ie [::1]:8080:[::]:9090".into()
        ))
    );
}

#[test]
fn empty_elements_and_odd_numbers() {
    assert_eq!(parse_ranges(""), Ok(Vec::new()));
    assert_eq!(parse_ranges(" , \u{3000},"), Ok(Vec::new()));
    assert_eq!(parse_ranges("5-3:4-2"), Ok(Vec::new()));
    assert_eq!(
        parse_ranges("1:x"),
        Err(TunnelParseError::Invalid("1:x".into(), "bad port".into()))
    );
    assert_eq!(
        parse_ranges("1-2-3:4-5-6"),
        Err(TunnelParseError::Invalid("1-2-3:4-5-6".into(), "bad range".into()))
    );
    let reqs = parse_ranges("h:+1:k:00000000000000000000000000002").unwrap();
    assert_eq!((src(&reqs[0]).1, dst(&reqs[0]).1), (Some(1), Some(2)));
    assert_eq!(
        parse_ranges("h:-1:k:1"),
        Err(TunnelParseError::PortOutOfRange(-1))
    );
    assert_eq!(
        parse_ranges("h:99999999999999999999:k:1"),
        Err(TunnelParseError::Invalid("h:99999999999999999999:k:1".into(), "bad port".into()))
    );
}

#[test]
fn refusals_in_words() {
    assert_eq!(
        TunnelParseError::MissingDestination.message(),
        "tunnel argument must have source and destination between a ':'"
    );
    assert_eq!(
        TunnelParseError::RangeLengthMismatch.message(),
        "source/destination port range must have same length"
    );
    assert!(TunnelParseError::HalfRange.message().starts_with("invalid port range syntax"));
    assert_eq!(
        TunnelParseError::Invalid("a".into(), "b".into()).message(),
        "invalid tunnel argument 'a': b"
    );
    assert_eq!(
        TunnelParseError::PortOutOfRange(-3).message(),
        "port -3 is out of range (must be 0-65535)"
    );
    assert_eq!(
        TunnelParseError::UnsupportedSocket("/x".into()).message(),
        "unix-socket forwarding ('/x') is not supported in this build"
    );
}

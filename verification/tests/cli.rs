use proto_gen::cli::{parse_protocol, source, Protocol, Source};

#[test]
fn parse_protocol_in_any_case() {
    assert_eq!(parse_protocol("Game"), Ok(Protocol::Game));
    assert_eq!(parse_protocol("g"), Ok(Protocol::Game));
    assert_eq!(parse_protocol("CONNECTION"), Ok(Protocol::Connection));
    assert_eq!(parse_protocol("c"), Ok(Protocol::Connection));
    assert_eq!(parse_protocol("chat"), Err("Invalid protocol: chat".to_string()));
}

#[test]
fn source_by_ports() {
    assert_eq!(source(5555, 40000), Some(Source::Server));
    assert_eq!(source(40000, 5555), Some(Source::Client));
    assert_eq!(source(5555, 5555), None);
    assert_eq!(source(1, 2), None);
}

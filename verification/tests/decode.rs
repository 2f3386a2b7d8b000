use proto_gen::decode::{decode_hex, decode_report, decode_target, refusal, DecodeTarget};

#[test]
fn decode_hex_reads_pairs_of_digits() {
    assert_eq!(decode_hex("0aFf10"), Some(vec![0x0a, 0xff, 0x10]));
    assert_eq!(decode_hex(""), Some(vec![]));
}

#[test]
fn decode_hex_refuses_odd_lengths_and_other_characters() {
    assert_eq!(decode_hex("abc"), None);
    assert_eq!(decode_hex("zz"), None);
    assert_eq!(decode_hex("0é"), None);
}

#[test]
fn decode_target_checks_the_stream_before_the_protocol() {
    assert!(matches!(decode_target("connection", "0102"), DecodeTarget::Connection(ref b) if b == &vec![1, 2]));
    assert!(matches!(decode_target("game", "ff"), DecodeTarget::Game(ref b) if b == &vec![255]));
    assert!(matches!(decode_target("other", "0g"), DecodeTarget::InvalidHex));
    assert!(matches!(decode_target("other", "00"), DecodeTarget::UnknownProtocol));
    assert!(matches!(decode_target("Game", "00"), DecodeTarget::UnknownProtocol));
}

#[test]
fn refusals_name_the_reason() {
    assert_eq!(refusal(&DecodeTarget::InvalidHex), "Invalid hexstream");
    assert_eq!(refusal(&DecodeTarget::UnknownProtocol), "protocol dont exist");
}

#[test]
fn decode_report_joins_one_line_per_result() {
    let results = vec![Ok("Ping".to_string()), Err("buffer underflow".to_string()), Ok("Pong".to_string())];
    assert_eq!(decode_report(&results), "Ping\nError: buffer underflow\nPong");
    assert_eq!(decode_report(&vec![]), "");
}

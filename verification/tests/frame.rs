use api_ws_demo::stomp::frame::{decode_header, encode_header, StompCommand, StompFrame};

#[test]
fn round_trip_connect() {
    let frame = StompFrame::new(StompCommand::Connect)
        .header("accept-version", "1.2")
        .header("host", "localhost");
    let bytes = frame.serialize();
    let parsed = StompFrame::parse(&bytes[..bytes.len() - 1]).unwrap();
    assert_eq!(parsed.command, StompCommand::Connect);
    assert_eq!(parsed.get("accept-version"), Some("1.2"));
    assert_eq!(parsed.get("host"), Some("localhost"));
}

#[test]
fn parses_crlf_line_endings() {
    let raw = b"CONNECT\r\naccept-version:1.2\r\nhost:localhost\r\n\r\n";
    let parsed = StompFrame::parse(raw).unwrap();
    assert_eq!(parsed.command, StompCommand::Connect);
    assert_eq!(parsed.get("accept-version"), Some("1.2"));
    assert_eq!(parsed.get("host"), Some("localhost"));
}

#[test]
fn round_trip_send_with_content_length_and_embedded_nul() {
    let body = vec![1u8, 0u8, 2u8, 3u8];
    let mut frame = StompFrame::new(StompCommand::Send)
        .header("destination", "/topic/test")
        .header("content-length", &body.len().to_string());
    frame.body = body.clone();
    let bytes = frame.serialize();
    let parsed = StompFrame::parse(&bytes[..bytes.len() - 1]).unwrap();
    assert_eq!(parsed.command, StompCommand::Send);
    assert_eq!(parsed.get("destination"), Some("/topic/test"));
    assert_eq!(parsed.body, body);
}

#[test]
fn header_escaping_round_trip() {
    let frame = StompFrame::new(StompCommand::Send).header("destination", "/topic/a:b\nc\\d");
    let bytes = frame.serialize();
    let parsed = StompFrame::parse(&bytes[..bytes.len() - 1]).unwrap();
    assert_eq!(parsed.get("destination"), Some("/topic/a:b\nc\\d"));
}

#[test]
fn rejects_unknown_command() {
    let err = StompFrame::parse(b"BOGUS\n\n").unwrap_err();
    assert!(err.0.contains("unknown command"));
}

#[test]
fn serializes_to_the_exact_wire_format() {
    let mut frame = StompFrame::new(StompCommand::Message)
        .header("destination", "/topic/x")
        .header("k", "a:b");
    frame.body = b"hi".to_vec();
    assert_eq!(frame.serialize(), b"MESSAGE\ndestination:/topic/x\nk:a\\cb\n\nhi\0".to_vec());
}

#[test]
fn encodes_and_decodes_header_escapes() {
    assert_eq!(encode_header("a\\b\rc\nd:e"), "a\\\\b\\rc\\nd\\ce");
    assert_eq!(decode_header("a\\\\b\\rc\\nd\\ce"), "a\\b\rc\nd:e");
}

#[test]
fn decoding_keeps_unknown_escapes_and_a_trailing_backslash() {
    assert_eq!(decode_header("x\\ty\\"), "x\\ty\\");
}

#[test]
fn first_header_of_a_name_wins() {
    let parsed = StompFrame::parse(b"SEND\nid:1\nid:2\n\n").unwrap();
    assert_eq!(parsed.get("id"), Some("1"));
    assert_eq!(parsed.get("missing"), None);
}

#[test]
fn skips_leading_end_of_line_bytes() {
    let parsed = StompFrame::parse(b"\r\n\nDISCONNECT\nreceipt:9\n\n").unwrap();
    assert_eq!(parsed.command, StompCommand::Disconnect);
    assert_eq!(parsed.get("receipt"), Some("9"));
}

#[test]
fn body_stops_at_nul_without_content_length() {
    let parsed = StompFrame::parse(b"SEND\ndestination:/q\n\nabc\0def").unwrap();
    assert_eq!(parsed.body, b"abc".to_vec());
}

#[test]
fn content_length_longer_than_the_data_reads_to_the_end() {
    let parsed = StompFrame::parse(b"SEND\ncontent-length:50\n\nab\0c").unwrap();
    assert_eq!(parsed.body, b"ab".to_vec());
}

#[test]
fn reports_missing_command_line_and_bad_header() {
    assert!(StompFrame::parse(b"CONNECT").unwrap_err().0.contains("missing command line"));
    assert!(StompFrame::parse(b"").unwrap_err().0.contains("missing command line"));
    let err = StompFrame::parse(b"SEND\nfoo:bar").unwrap_err();
    assert!(err.0.contains("missing header/body separator"));
}

#[test]
fn header_lines_without_a_colon_are_skipped() {
    let parsed = StompFrame::parse(b"SEND\nnocolon\nk:v\n\n").unwrap();
    assert_eq!(parsed.headers.len(), 1);
    assert_eq!(parsed.get("k"), Some("v"));
}

#[test]
fn client_command_names_round_trip() {
    let client = [
        StompCommand::Connect,
        StompCommand::Stomp,
        StompCommand::Send,
        StompCommand::Subscribe,
        StompCommand::Unsubscribe,
        StompCommand::Ack,
        StompCommand::Nack,
        StompCommand::Begin,
        StompCommand::Commit,
        StompCommand::Abort,
        StompCommand::Disconnect,
    ];
    for c in client {
        assert_eq!(StompCommand::parse(c.as_str()), Some(c));
    }
    for c in [StompCommand::Connected, StompCommand::Message, StompCommand::Receipt, StompCommand::Error] {
        assert_eq!(StompCommand::parse(c.as_str()), None);
    }
    assert_eq!(StompCommand::Subscribe.as_str(), "SUBSCRIBE");
    assert_eq!(StompCommand::parse("subscribe"), None);
}

#[test]
fn server_commands_are_not_read() {
    for c in [StompCommand::Connected, StompCommand::Message, StompCommand::Receipt, StompCommand::Error] {
        let b = StompFrame::new(c).serialize();
        let e = StompFrame::parse(&b[..b.len() - 1]).unwrap_err();
        assert_eq!(e.0, format!("unknown command '{}'", c.as_str()));
    }
}

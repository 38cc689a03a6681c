use quote_stream::request::{
    handshake_step, is_ok_reply, stream_request_line, ok_reply, parse_port, parse_stream_request, split_fields, HandshakeStep,
    RequestError, Separator,
};

fn refused(line: &str) -> RequestError {
    match parse_stream_request(line) {
        Ok(r) => panic!("accepted {:?}", r),
        Err(e) => e,
    }
}

fn retry_text(line: &str) -> String {
    match handshake_step(line) {
        HandshakeStep::Retry(t) => t,
        HandshakeStep::Accept(r) => panic!("accepted {:?}", r),
    }
}

#[test]
fn well_formed_request_is_accepted() {
    let r = parse_stream_request("STREAM udp://127.0.0.1:9100 AAPL,MSFT\n").unwrap();
    assert_eq!(r.host, "127.0.0.1");
    assert_eq!(r.port, 9100);
    assert_eq!(r.address, "127.0.0.1:9100");
    assert_eq!(r.tickers, vec!["AAPL".to_string(), "MSFT".to_string()]);
}

#[test]
fn accepted_request_gets_ok() {
    match handshake_step("STREAM udp://localhost:1 X") {
        HandshakeStep::Accept(r) => {
            assert_eq!(r.address, "localhost:1");
            assert_eq!(r.tickers, vec!["X".to_string()]);
        }
        HandshakeStep::Retry(t) => panic!("refused: {t}"),
    }
    assert_eq!(ok_reply(), "OK\n");
}

#[test]
fn extra_white_space_and_empty_names_are_ignored() {
    let r = parse_stream_request("  STREAM\tudp://h:0   ,A,,B,  extra\r\n").unwrap();
    assert_eq!(r.port, 0);
    assert_eq!(r.tickers, vec!["A".to_string(), "B".to_string()]);
}

#[test]
fn port_keeps_its_written_form_in_the_address() {
    let r = parse_stream_request("STREAM udp://h:0080 A").unwrap();
    assert_eq!(r.port, 80);
    assert_eq!(r.address, "h:0080");
}

#[test]
fn missing_udp_scheme_is_refused() {
    assert_eq!(refused("STREAM tcp://127.0.0.1:9100 AAPL"), RequestError::NotUdp);
    assert_eq!(refused("STREAM 127.0.0.1:9100 AAPL"), RequestError::NotUdp);
    assert_eq!(retry_text("STREAM 127.0.0.1:9100 AAPL"), "ERROR: the address must start with udp://\n");
}

#[test]
fn missing_ticker_list_is_refused() {
    assert_eq!(refused("STREAM udp://127.0.0.1:9100"), RequestError::MissingTickers);
    assert_eq!(refused("STREAM udp://127.0.0.1:9100 ,,,"), RequestError::MissingTickers);
    assert_eq!(retry_text("STREAM udp://127.0.0.1:9100\n"), "ERROR: missing ticker list\n");
}

#[test]
fn unparsable_port_is_refused() {
    assert_eq!(refused("STREAM udp://127.0.0.1:abc AAPL"), RequestError::BadPort);
    assert_eq!(refused("STREAM udp://127.0.0.1:65536 AAPL"), RequestError::BadPort);
    assert_eq!(refused("STREAM udp://127.0.0.1:+80 AAPL"), RequestError::BadPort);
    assert_eq!(
        retry_text("STREAM udp://127.0.0.1:99999999999999999999 AAPL"),
        "ERROR: the port must be a number from 0 to 65535\n"
    );
}

#[test]
fn other_refusals_name_their_cause() {
    assert_eq!(refused(""), RequestError::UnknownCommand);
    assert_eq!(refused("   \n"), RequestError::UnknownCommand);
    assert_eq!(refused("stream udp://h:1 A"), RequestError::UnknownCommand);
    assert_eq!(refused("STREAMS udp://h:1 A"), RequestError::UnknownCommand);
    assert_eq!(refused("STREAM"), RequestError::MissingAddress);
    assert_eq!(refused("STREAM udp://h A"), RequestError::BadAddress);
    assert_eq!(refused("STREAM udp://h:1:2 A"), RequestError::BadAddress);
    assert_eq!(refused("STREAM udp://:1 A"), RequestError::BadAddress);
    assert_eq!(refused("STREAM udp://h: A"), RequestError::BadAddress);
    assert_eq!(retry_text("HELLO"), "ERROR: unknown command\n");
    assert_eq!(retry_text("STREAM"), "ERROR: missing udp address\n");
    assert_eq!(retry_text("STREAM udp://h A"), "ERROR: the address must be <host>:<port>\n");
}

#[test]
fn a_refused_line_leaves_the_connection_usable() {
    let lines = ["STREAM 1.2.3.4:5 A", "STREAM udp://1.2.3.4:x A", "STREAM udp://1.2.3.4:5 A"];
    let mut accepted = 0;
    for line in lines {
        match handshake_step(line) {
            HandshakeStep::Retry(t) => assert!(t.starts_with("ERROR: ")),
            HandshakeStep::Accept(r) => {
                accepted += 1;
                assert_eq!(r.address, "1.2.3.4:5");
            }
        }
    }
    assert_eq!(accepted, 1);
}

#[test]
fn fields_split_on_white_space_or_commas() {
    let s: Vec<char> = " a  bc\u{3000}d ".chars().collect();
    let w = split_fields(&s, Separator::Space);
    assert_eq!(w, vec![vec!['a'], vec!['b', 'c'], vec!['d']]);
    let s: Vec<char> = ",x,,y".chars().collect();
    assert_eq!(split_fields(&s, Separator::Comma), vec![vec!['x'], vec!['y']]);
    assert!(split_fields(&Vec::new(), Separator::Comma).is_empty());
}

#[test]
fn ports_are_decimal_up_to_65535() {
    let p = |s: &str| parse_port(&s.chars().collect());
    assert_eq!(p("0"), Some(0));
    assert_eq!(p("65535"), Some(65535));
    assert_eq!(p("65536"), None);
    assert_eq!(p(""), None);
    assert_eq!(p("1a"), None);
    assert_eq!(p("-1"), None);
}

#[test]
fn client_request_line_is_accepted_by_the_server_grammar() {
    let line = stream_request_line(&"127.0.0.1:9100".to_string(), &vec!["AAPL".to_string(), "MSFT".to_string()]);
    assert_eq!(line, "STREAM udp://127.0.0.1:9100 AAPL,MSFT\n");
    let r = parse_stream_request(&line).unwrap();
    assert_eq!(r.address, "127.0.0.1:9100");
    assert_eq!(r.tickers, vec!["AAPL".to_string(), "MSFT".to_string()]);
    assert_eq!(stream_request_line(&"h:1".to_string(), &vec!["X".to_string()]), "STREAM udp://h:1 X\n");
    assert_eq!(stream_request_line(&"h:1".to_string(), &Vec::new()), "STREAM udp://h:1 \n");
}

#[test]
fn only_ok_is_an_acceptance() {
    assert!(is_ok_reply(&"OK\n".to_string()));
    assert!(!is_ok_reply(&"OK".to_string()));
    assert!(!is_ok_reply(&"ERROR: unknown command\n".to_string()));
}

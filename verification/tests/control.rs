use quote_stream::command::{handle_command, parse_endpoint, parse_ticker_lines, split_ticker_list};
use quote_stream::registry::ClientManager;

#[test]
fn wellformed_stream_request_gets_ok_and_one_session() {
    let mut m = ClientManager::new();
    let out = handle_command(&mut m, "STREAM udp://127.0.0.1:34254 AAPL,MSFT\n", 100);
    assert_eq!(out.response.unwrap(), "OK");
    let started = out.session.unwrap();
    assert_eq!(started.client_id, 1);
    assert_eq!(started.endpoint, "127.0.0.1:34254");
    assert_eq!(m.sessions.len(), 1);
    assert_eq!(m.sessions[0].id, 1);
    assert_eq!(m.sessions[0].subscribed_tickers, vec!["AAPL", "MSFT"]);
    assert_eq!(m.sessions[0].last_ping, 100);
}

#[test]
fn request_tickers_are_trimmed_and_empties_kept() {
    let mut m = ClientManager::new();
    let out = handle_command(&mut m, "STREAM 10.0.0.1:9000 AAPL,MSFT,,TSLA", 5);
    assert_eq!(out.response.unwrap(), "OK");
    assert_eq!(m.sessions[0].subscribed_tickers, vec!["AAPL", "MSFT", "", "TSLA"]);
    // The subscription list ends at the first whitespace, as a fourth token.
    let out = handle_command(&mut m, "STREAM 10.0.0.1:9000 AAPL, MSFT", 5);
    assert_eq!(out.response.unwrap(), "OK");
    assert_eq!(m.sessions[1].subscribed_tickers, vec!["AAPL", ""]);
}

#[test]
fn malformed_requests_create_no_session() {
    let mut m = ClientManager::new();
    for line in [
        "SUBSCRIBE udp://127.0.0.1:1 AAPL",
        "STREAM",
        "STREAM udp://127.0.0.1:1",
        "STREAM notanaddress AAPL",
        "STREAM udp://256.0.0.1:1 AAPL",
        "STREAM udp://1.2.3.4:99999 AAPL",
        "stream udp://127.0.0.1:1 AAPL",
    ] {
        let out = handle_command(&mut m, line, 0);
        let response = out.response.unwrap();
        assert_ne!(response, "OK", "line should be rejected: {line}");
        assert!(out.session.is_none());
        assert_eq!(m.sessions.len(), 0);
    }
}

#[test]
fn blank_line_is_ignored_without_reply() {
    let mut m = ClientManager::new();
    let out = handle_command(&mut m, "   \r\n", 0);
    assert!(out.response.is_none());
    assert!(out.session.is_none());
    assert_eq!(m.sessions.len(), 0);
}

#[test]
fn extra_tokens_after_the_third_are_ignored() {
    let mut m = ClientManager::new();
    let out = handle_command(&mut m, "STREAM udp://127.0.0.1:1 AAPL and more words", 0);
    assert_eq!(out.response.unwrap(), "OK");
    assert_eq!(m.sessions[0].subscribed_tickers, vec!["AAPL"]);
}

#[test]
fn identifiers_are_assigned_in_order_and_never_reused() {
    let mut m = ClientManager::new();
    let a = handle_command(&mut m, "STREAM 1.2.3.4:5 A", 0).session.unwrap().client_id;
    let b = handle_command(&mut m, "STREAM 1.2.3.4:6 B", 0).session.unwrap().client_id;
    assert_eq!((a, b), (1, 2));
    m.remove_client(a);
    let c = handle_command(&mut m, "STREAM 1.2.3.4:7 C", 0).session.unwrap().client_id;
    assert_eq!(c, 3);
}

#[test]
fn endpoint_grammar() {
    assert_eq!(parse_endpoint("udp://127.0.0.1:34254").unwrap(), "127.0.0.1:34254");
    assert_eq!(parse_endpoint("127.0.0.1:8080").unwrap(), "127.0.0.1:8080");
    assert_eq!(parse_endpoint("udp://0.0.0.0:0").unwrap(), "0.0.0.0:0");
    assert_eq!(parse_endpoint("255.255.255.255:65535").unwrap(), "255.255.255.255:65535");
    assert!(parse_endpoint("udp://").is_none());
    assert!(parse_endpoint("1.2.3:4").is_none());
    assert!(parse_endpoint("1.2.3.4.5:6").is_none());
    assert!(parse_endpoint("1.2.3.256:6").is_none());
    assert!(parse_endpoint("01.2.3.4:6").is_none());
    assert!(parse_endpoint("1.2.3.4:65536").is_none());
    assert!(parse_endpoint("1.2.3.4:06").is_none());
    assert!(parse_endpoint("1.2.3.4").is_none());
    assert!(parse_endpoint("1.2.3.4:").is_none());
    assert!(parse_endpoint("host:80").is_none());
}

#[test]
fn ticker_list_splits_on_commas() {
    let parts = split_ticker_list("AAPL,MSFT, GOOGL");
    assert_eq!(parts, vec!["AAPL", "MSFT", "GOOGL"]);
    let lone = split_ticker_list("AAPL");
    assert_eq!(lone, vec!["AAPL"]);
}

#[test]
fn joined_ticker_list_splits_back_to_the_same_set() {
    let tickers: Vec<String> = ["AAPL", "MSFT", "GOOGL"].iter().map(|s| s.to_string()).collect();
    let joined = quote_stream::strutil::join_comma(&tickers);
    assert_eq!(joined, "AAPL,MSFT,GOOGL");
    assert_eq!(split_ticker_list(&joined), tickers);
    assert_eq!(quote_stream::strutil::join_comma(&Vec::new()), "");
    let lone: Vec<String> = vec!["TSLA".to_string()];
    assert_eq!(quote_stream::strutil::join_comma(&lone), "TSLA");
}

#[test]
fn ticker_file_lines_are_trimmed_and_blanks_dropped() {
    let tickers = parse_ticker_lines("AAPL\n MSFT \n\nGOOGL\n");
    assert_eq!(tickers, vec!["AAPL", "MSFT", "GOOGL"]);
    let none = parse_ticker_lines("\n  \n");
    assert!(none.is_empty());
}

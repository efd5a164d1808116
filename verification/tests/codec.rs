use quote_stream::numfmt::{check_decimal, parse_u64, u64_to_dec};
use quote_stream::quote::{is_ping, is_pong, ping_msg, pong_msg, QuoteParseError, StockQuote};

fn quote(ticker: &str, price: &str, volume: &str, timestamp: u64) -> StockQuote {
    StockQuote {
        ticker: ticker.to_string(),
        price: price.to_string(),
        volume: volume.to_string(),
        timestamp,
    }
}

#[test]
fn quote_formats_as_pipe_delimited_line() {
    let q = quote("AAPL", "123.45", "5000", 1700000000);
    assert_eq!(q.to_line(), "AAPL|123.45|5000|1700000000");
}

#[test]
fn quote_round_trip_reproduces_every_field() {
    let q = quote("GOOGL", "981.25", "1234.5", 1712345678);
    let line = q.to_line();
    let back = StockQuote::from_string(&line).unwrap();
    assert_eq!(back.ticker, "GOOGL");
    assert_eq!(back.price, "981.25");
    assert_eq!(back.volume, "1234.5");
    assert_eq!(back.timestamp, 1712345678);
}

#[test]
fn quote_round_trip_extreme_timestamp() {
    let q = quote("TSLA", "1.0", "-2.5", u64::MAX);
    let back = StockQuote::from_string(&q.to_line()).unwrap();
    assert_eq!(back.timestamp, u64::MAX);
    assert_eq!(back.price, "1.0");
    assert_eq!(back.volume, "-2.5");
}

#[test]
fn quote_parse_rejects_wrong_field_count() {
    assert!(matches!(
        StockQuote::from_string("AAPL|1.0|2.0"),
        Err(QuoteParseError::WrongFieldCount)
    ));
    assert!(matches!(
        StockQuote::from_string("AAPL|1.0|2.0|3|extra"),
        Err(QuoteParseError::WrongFieldCount)
    ));
    assert!(matches!(
        StockQuote::from_string(""),
        Err(QuoteParseError::WrongFieldCount)
    ));
}

#[test]
fn quote_parse_rejects_bad_price() {
    assert!(matches!(
        StockQuote::from_string("AAPL|abc|2.0|3"),
        Err(QuoteParseError::BadPrice)
    ));
    assert!(matches!(
        StockQuote::from_string("AAPL||2.0|3"),
        Err(QuoteParseError::BadPrice)
    ));
    assert!(matches!(
        StockQuote::from_string("AAPL|1.|2.0|3"),
        Err(QuoteParseError::BadPrice)
    ));
}

#[test]
fn quote_parse_rejects_bad_volume() {
    assert!(matches!(
        StockQuote::from_string("AAPL|1.5|12x|3"),
        Err(QuoteParseError::BadVolume)
    ));
}

#[test]
fn quote_parse_rejects_bad_timestamp() {
    assert!(matches!(
        StockQuote::from_string("AAPL|1.5|2.0|-3"),
        Err(QuoteParseError::BadTimestamp)
    ));
    assert!(matches!(
        StockQuote::from_string("AAPL|1.5|2.0|3.5"),
        Err(QuoteParseError::BadTimestamp)
    ));
    assert!(matches!(
        StockQuote::from_string("AAPL|1.5|2.0|99999999999999999999999"),
        Err(QuoteParseError::BadTimestamp)
    ));
}

#[test]
fn quote_parse_accepts_negative_decimals() {
    let q = StockQuote::from_string("X|-0.5|-10|7").unwrap();
    assert_eq!(q.price, "-0.5");
    assert_eq!(q.volume, "-10");
    assert_eq!(q.timestamp, 7);
}

#[test]
fn decimal_grammar_cases() {
    assert!(check_decimal("0"));
    assert!(check_decimal("007"));
    assert!(check_decimal("-3.25"));
    assert!(check_decimal("10.0"));
    assert!(!check_decimal(""));
    assert!(!check_decimal("-"));
    assert!(!check_decimal("."));
    assert!(!check_decimal("1."));
    assert!(!check_decimal(".5"));
    assert!(!check_decimal("1.2.3"));
    assert!(!check_decimal("1e5"));
    assert!(!check_decimal(" 1"));
}

#[test]
fn parse_u64_cases() {
    assert_eq!(parse_u64("0"), Some(0));
    assert_eq!(parse_u64("007"), Some(7));
    assert_eq!(parse_u64("18446744073709551615"), Some(u64::MAX));
    assert_eq!(parse_u64("18446744073709551616"), None);
    assert_eq!(parse_u64(""), None);
    assert_eq!(parse_u64("12a"), None);
    assert_eq!(parse_u64("-1"), None);
}

#[test]
fn u64_to_dec_prints_canonically() {
    assert_eq!(u64_to_dec(0), "0");
    assert_eq!(u64_to_dec(7), "7");
    assert_eq!(u64_to_dec(1234567890), "1234567890");
    assert_eq!(u64_to_dec(u64::MAX), "18446744073709551615");
}

#[test]
fn liveness_datagrams_are_four_ascii_bytes() {
    assert_eq!(ping_msg(), b"PING".to_vec());
    assert_eq!(pong_msg(), b"PONG".to_vec());
    assert!(is_ping(b"PING"));
    assert!(!is_ping(b"PONG"));
    assert!(!is_ping(b"PIN"));
    assert!(!is_ping(b"PINGG"));
    assert!(is_pong(b"PONG"));
    assert!(!is_pong(b"PING"));
}

#[test]
fn clock_reads_after_epoch() {
    assert!(quote_stream::quote::get_timestamp() > 0);
}

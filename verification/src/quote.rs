//! The wire codec of the data plane: quote records as pipe-delimited text,
//! the four-byte liveness probes, and the clock. Price and volume travel as
//! decimal literals and are kept as text here, so a record round-trips
//! through format and parse without loss.

use vstd::prelude::*;

use crate::numfmt::{
    all_digits, check_decimal, dec_digits, dec_val, is_decimal, is_digit, parse_u64, u64_to_dec,
};
use crate::numfmt::{lemma_dec_digits_val, lemma_decimal_chars};
use crate::strutil::{lemma_split_pieces_no_sep, lemma_split_prepend, lemma_split_whole};
use crate::strutil::{split_char, split_of, views_of};

verus! {

/// One quote: a ticker symbol, the traded price and volume as decimal
/// literals, and the time of the trade in seconds since the epoch.
#[derive(Debug, Clone)]
pub struct StockQuote {
    pub ticker: String,
    pub price: String,
    pub volume: String,
    pub timestamp: u64,
}

/// The fields of a quote record line.
pub open spec fn quote_fields(s: Seq<char>) -> Seq<Seq<char>> {
    split_of(s, '|')
}

/// A parseable quote record: exactly four pipe-separated fields, decimal
/// price and volume, and a timestamp that fits an unsigned 64-bit count.
pub open spec fn parse_ok(s: Seq<char>) -> bool {
    &&& quote_fields(s).len() == 4
    &&& is_decimal(quote_fields(s)[1])
    &&& is_decimal(quote_fields(s)[2])
    &&& quote_fields(s)[3].len() >= 1
    &&& all_digits(quote_fields(s)[3])
    &&& dec_val(quote_fields(s)[3]) <= u64::MAX
}

/// Why a quote record was rejected.
#[derive(Debug, PartialEq, Eq)]
pub enum QuoteParseError {
    /// The record does not have exactly four fields.
    WrongFieldCount,
    /// The price field is not a decimal literal.
    BadPrice,
    /// The volume field is not a decimal literal.
    BadVolume,
    /// The timestamp field is not an unsigned 64-bit count.
    BadTimestamp,
}

impl StockQuote {
    /// A quote that can be framed: the ticker is free of the field
    /// separator, price and volume are decimal literals.
    pub open spec fn wf(self) -> bool {
        &&& !self.ticker@.contains('|')
        &&& is_decimal(self.price@)
        &&& is_decimal(self.volume@)
    }

    /// The record line of this quote.
    pub open spec fn line_of(self) -> Seq<char> {
        self.ticker@ + seq!['|'] + self.price@ + seq!['|'] + self.volume@ + seq!['|'] + dec_digits(
            self.timestamp as nat,
        )
    }

    /// Reads a quote record, field by field, and says exactly which check
    /// failed when one does.
    pub fn from_string(s: &str) -> (r: Result<StockQuote, QuoteParseError>)
        ensures
            r is Ok <==> parse_ok(s@),
            r matches Ok(q) ==> {
                &&& q.ticker@ == quote_fields(s@)[0]
                &&& q.price@ == quote_fields(s@)[1]
                &&& q.volume@ == quote_fields(s@)[2]
                &&& q.timestamp == dec_val(quote_fields(s@)[3])
                &&& q.wf()
            },
            r == Err::<StockQuote, _>(QuoteParseError::WrongFieldCount) <==> quote_fields(
                s@,
            ).len() != 4,
            r == Err::<StockQuote, _>(QuoteParseError::BadPrice) <==> quote_fields(s@).len() == 4
                && !is_decimal(quote_fields(s@)[1]),
            r == Err::<StockQuote, _>(QuoteParseError::BadVolume) <==> quote_fields(s@).len() == 4
                && is_decimal(quote_fields(s@)[1]) && !is_decimal(quote_fields(s@)[2]),
    {
        let fields = split_char(s, '|');
        proof {
            assert(views_of(fields@).len() == fields@.len());
        }
        if fields.len() != 4 {
            return Err(QuoteParseError::WrongFieldCount);
        }
        proof {
            assert(views_of(fields@)[1] == fields@[1]@);
        }
        if !check_decimal(fields[1].as_str()) {
            return Err(QuoteParseError::BadPrice);
        }
        proof {
            assert(views_of(fields@)[2] == fields@[2]@);
        }
        if !check_decimal(fields[2].as_str()) {
            return Err(QuoteParseError::BadVolume);
        }
        proof {
            assert(views_of(fields@)[3] == fields@[3]@);
        }
        match parse_u64(fields[3].as_str()) {
            None => Err(QuoteParseError::BadTimestamp),
            Some(timestamp) => {
                proof {
                    assert(views_of(fields@)[0] == fields@[0]@);
                    lemma_split_pieces_no_sep(s@, '|');
                }
                Ok(
                    StockQuote {
                        ticker: fields[0].clone(),
                        price: fields[1].clone(),
                        volume: fields[2].clone(),
                        timestamp,
                    },
                )
            },
        }
    }

    /// Writes the record line of this quote.
    pub fn to_line(&self) -> (line: String)
        ensures
            line@ == self.line_of(),
    {
        let mut line = self.ticker.clone();
        line.append("|");
        line.append(self.price.as_str());
        line.append("|");
        line.append(self.volume.as_str());
        line.append("|");
        let ts = u64_to_dec(self.timestamp);
        line.append(ts.as_str());
        proof {
            reveal_strlit("|");
            assert(("|")@ =~= seq!['|']);
            assert(line@ =~= self.line_of());
        }
        line
    }
}

/// Formatting a well-formed quote and parsing the result reproduces every
/// field exactly: the ticker and the decimal literals character for
/// character, the timestamp as the same number.
pub proof fn lemma_quote_round_trip(q: StockQuote)
    requires
        q.wf(),
    ensures
        parse_ok(q.line_of()),
        quote_fields(q.line_of())[0] == q.ticker@,
        quote_fields(q.line_of())[1] == q.price@,
        quote_fields(q.line_of())[2] == q.volume@,
        dec_val(quote_fields(q.line_of())[3]) == q.timestamp,
{
    let t = q.ticker@;
    let p = q.price@;
    let v = q.volume@;
    let d = dec_digits(q.timestamp as nat);
    lemma_dec_digits_val(q.timestamp as nat);
    lemma_decimal_chars(p);
    lemma_decimal_chars(v);
    assert forall|i: int| 0 <= i < t.len() implies t[i] != '|' by {
        if t[i] == '|' {
            assert(t.contains('|'));
        }
    }
    assert(forall|i: int| 0 <= i < p.len() ==> p[i] != '|');
    assert(forall|i: int| 0 <= i < v.len() ==> v[i] != '|');
    assert(forall|i: int| 0 <= i < d.len() ==> is_digit(d[i]) && d[i] != '|');
    let rest2 = v + seq!['|'] + d;
    let rest1 = p + seq!['|'] + rest2;
    let line = q.line_of();
    assert(line =~= t + seq!['|'] + rest1);
    lemma_split_prepend(t, '|', rest1);
    lemma_split_prepend(p, '|', rest2);
    lemma_split_prepend(v, '|', d);
    lemma_split_whole(d, '|');
    assert(quote_fields(line) =~= seq![t, p, v, d]);
}

/// The four bytes of a liveness probe: the ASCII text `PING`.
pub open spec fn ping_bytes() -> Seq<u8> {
    seq![80u8, 73u8, 78u8, 71u8]
}

/// The four bytes of a liveness acknowledgment: the ASCII text `PONG`.
pub open spec fn pong_bytes() -> Seq<u8> {
    seq![80u8, 79u8, 78u8, 71u8]
}

/// Whether a datagram is a liveness probe.
pub fn is_ping(m: &[u8]) -> (r: bool)
    ensures
        r == (m@ == ping_bytes()),
{
    if m.len() == 4 {
        let r = m[0] == 80 && m[1] == 73 && m[2] == 78 && m[3] == 71;
        proof {
            if r {
                assert(m@ =~= ping_bytes());
            }
        }
        r
    } else {
        false
    }
}

/// Whether a datagram is a liveness acknowledgment.
pub fn is_pong(m: &[u8]) -> (r: bool)
    ensures
        r == (m@ == pong_bytes()),
{
    if m.len() == 4 {
        let r = m[0] == 80 && m[1] == 79 && m[2] == 78 && m[3] == 71;
        proof {
            if r {
                assert(m@ =~= pong_bytes());
            }
        }
        r
    } else {
        false
    }
}

/// The probe datagram, ready to send.
pub fn ping_msg() -> (v: Vec<u8>)
    ensures
        v@ == ping_bytes(),
{
    let mut v: Vec<u8> = Vec::new();
    v.push(80);
    v.push(73);
    v.push(78);
    v.push(71);
    proof {
        assert(v@ =~= ping_bytes());
    }
    v
}

/// The acknowledgment datagram, ready to send.
pub fn pong_msg() -> (v: Vec<u8>)
    ensures
        v@ == pong_bytes(),
{
    let mut v: Vec<u8> = Vec::new();
    v.push(80);
    v.push(79);
    v.push(78);
    v.push(71);
    proof {
        assert(v@ =~= pong_bytes());
    }
    v
}

/// Relies on `std::time::SystemTime::now` and `duration_since`: the system
/// clock as whole seconds since the Unix epoch, absent if the clock reads
/// before the epoch. The result depends on when it is called, so nothing is
/// promised of it.
#[verifier::external_body]
fn clock_since_epoch() -> Option<u64> {
    std::time::SystemTime::now().duration_since(std::time::UNIX_EPOCH).ok().map(|d| d.as_secs())
}

/// The current time in whole seconds since the Unix epoch; zero on a clock
/// that reads before the epoch. The reading depends on when it is made, so
/// no more can be said of it.
pub fn get_timestamp() -> u64 {
    match clock_since_epoch() {
        Some(seconds) => seconds,
        None => 0,
    }
}

} // verus!

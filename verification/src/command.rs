//! The control plane: reading a `STREAM <endpoint> <tickers>` request line,
//! validating the data endpoint, and creating the session in the registry.
//! A well-formed request gets exactly the reply `OK` and one new session;
//! anything else gets an error line and leaves the registry untouched.

use vstd::prelude::*;

use crate::numfmt::{all_digits, dec_val, parse_bounded};
use crate::registry::ClientManager;
use crate::strutil::{split_char, split_of, split_ws, tokens_of, trim_of, trim_str, views_of};

verus! {

/// The word that begins a subscription request.
pub open spec fn stream_word() -> Seq<char> {
    seq!['S', 'T', 'R', 'E', 'A', 'M']
}

/// The reply that accepts a request.
pub open spec fn ok_word() -> Seq<char> {
    seq!['O', 'K']
}

/// The scheme prefix a data endpoint may carry.
pub open spec fn udp_prefix() -> Seq<char> {
    seq!['u', 'd', 'p', ':', '/', '/']
}

/// The endpoint without its scheme prefix, if it had one.
pub open spec fn strip_scheme(s: Seq<char>) -> Seq<char> {
    if s.len() >= 6 && s.take(6) == udp_prefix() {
        s.skip(6)
    } else {
        s
    }
}

/// A dotted-quad octet: one to three digits, no leading zero, value at most
/// 255.
pub open spec fn valid_octet(x: Seq<char>) -> bool {
    x.len() >= 1 && all_digits(x) && dec_val(x) <= 255 && (x.len() == 1 || x[0] != '0')
}

/// A port number: digits, no leading zero, value at most 65535.
pub open spec fn valid_port(x: Seq<char>) -> bool {
    x.len() >= 1 && all_digits(x) && dec_val(x) <= 65535 && (x.len() == 1 || x[0] != '0')
}

/// A usable data endpoint: after the optional scheme prefix, a dotted-quad
/// address, a colon, and a port.
pub open spec fn valid_endpoint(s: Seq<char>) -> bool {
    let hp = split_of(strip_scheme(s), ':');
    &&& hp.len() == 2
    &&& valid_port(hp[1])
    &&& split_of(hp[0], '.').len() == 4
    &&& forall|i: int| 0 <= i < 4 ==> valid_octet(#[trigger] split_of(hp[0], '.')[i])
}

/// A well-formed request line: at least three whitespace-separated tokens,
/// the first reading `STREAM`, the second a usable endpoint. Tokens after
/// the third are ignored.
pub open spec fn wellformed_request(line: Seq<char>) -> bool {
    let toks = tokens_of(line);
    &&& toks.len() >= 3
    &&& toks[0] == stream_word()
    &&& valid_endpoint(toks[1])
}

/// Each piece trimmed of surrounding whitespace.
pub open spec fn trimmed_all(ps: Seq<Seq<char>>) -> Seq<Seq<char>> {
    ps.map_values(|t: Seq<char>| trim_of(t))
}

/// The subscription set a well-formed request asks for: the third token
/// split on commas, each entry trimmed.
pub open spec fn requested_tickers(line: Seq<char>) -> Seq<Seq<char>> {
    trimmed_all(split_of(tokens_of(line)[2], ','))
}

/// The data endpoint a well-formed request names, scheme stripped.
pub open spec fn requested_endpoint(line: Seq<char>) -> Seq<char> {
    strip_scheme(tokens_of(line)[1])
}

/// Exec test for an octet.
fn check_octet(s: &str) -> (r: bool)
    ensures
        r == valid_octet(s@),
{
    match parse_bounded(s, 255) {
        Some(_) => s.unicode_len() == 1 || s.get_char(0) != '0',
        None => false,
    }
}

/// Exec test for a port.
fn check_port(s: &str) -> (r: bool)
    ensures
        r == valid_port(s@),
{
    match parse_bounded(s, 65535) {
        Some(_) => s.unicode_len() == 1 || s.get_char(0) != '0',
        None => false,
    }
}

/// Reads a data endpoint: strips the optional scheme prefix and checks the
/// remainder is a dotted-quad address and port. Returns the stripped
/// address exactly when the endpoint is usable.
pub fn parse_endpoint(s: &str) -> (r: Option<String>)
    ensures
        r is Some <==> valid_endpoint(s@),
        r matches Some(a) ==> a@ == strip_scheme(s@),
{
    let n = s.unicode_len();
    let stripped: String = if n >= 6 && s.get_char(0) == 'u' && s.get_char(1) == 'd' && s.get_char(
        2,
    ) == 'p' && s.get_char(3) == ':' && s.get_char(4) == '/' && s.get_char(5) == '/' {
        proof {
            assert(s@.take(6) =~= udp_prefix());
        }
        s.substring_char(6, n).to_owned()
    } else {
        proof {
            if s@.len() >= 6 && s@.take(6) == udp_prefix() {
                assert(s@[0] == s@.take(6)[0] && s@[1] == s@.take(6)[1] && s@[2] == s@.take(6)[2]
                    && s@[3] == s@.take(6)[3] && s@[4] == s@.take(6)[4] && s@[5] == s@.take(6)[5]);
                assert(false);
            }
        }
        s.to_owned()
    };
    let parts = split_char(stripped.as_str(), ':');
    proof {
        assert(views_of(parts@).len() == parts@.len());
    }
    if parts.len() != 2 {
        return None;
    }
    proof {
        assert(views_of(parts@)[1] == parts@[1]@);
        assert(views_of(parts@)[0] == parts@[0]@);
    }
    if !check_port(parts[1].as_str()) {
        return None;
    }
    let octets = split_char(parts[0].as_str(), '.');
    proof {
        assert(views_of(octets@).len() == octets@.len());
    }
    if octets.len() != 4 {
        return None;
    }
    let mut i: usize = 0;
    while i < 4
        invariant
            i <= 4,
            octets@.len() == 4,
            views_of(octets@) == split_of(parts@[0]@, '.'),
            parts@.len() == 2,
            views_of(parts@) == split_of(stripped@, ':'),
            stripped@ == strip_scheme(s@),
            valid_port(parts@[1]@),
            forall|j: int| 0 <= j < i ==> valid_octet(#[trigger] split_of(parts@[0]@, '.')[j]),
        decreases 4 - i,
    {
        proof {
            assert(views_of(octets@)[i as int] == octets@[i as int]@);
        }
        if !check_octet(octets[i].as_str()) {
            return None;
        }
        i = i + 1;
    }
    Some(stripped)
}

/// Exec test for the request word.
fn is_stream_word(s: &str) -> (r: bool)
    ensures
        r == (s@ == stream_word()),
{
    if s.unicode_len() == 6 {
        let r = s.get_char(0) == 'S' && s.get_char(1) == 'T' && s.get_char(2) == 'R' && s.get_char(
            3,
        ) == 'E' && s.get_char(4) == 'A' && s.get_char(5) == 'M';
        proof {
            if r {
                assert(s@ =~= stream_word());
            }
        }
        r
    } else {
        false
    }
}

/// The accepting reply.
fn ok_response() -> (r: String)
    ensures
        r@ == ok_word(),
{
    proof {
        reveal_strlit("OK");
        assert(("OK")@ =~= ok_word());
    }
    String::from_str("OK")
}

/// An error reply that echoes the offending line; never reads as `OK`.
fn error_response(reason: &str, line: &str) -> (r: String)
    requires
        reason@.len() > 2,
    ensures
        r@ != ok_word(),
{
    let mut r = reason.to_owned();
    r.append(line);
    proof {
        assert(r@.len() > 2);
        assert(ok_word().len() == 2);
    }
    r
}

/// The subscription set named by the third token: split on commas, each
/// entry trimmed.
pub fn split_ticker_list(s: &str) -> (r: Vec<String>)
    ensures
        views_of(r@) == trimmed_all(split_of(s@, ',')),
        r@.len() >= 1,
{
    let parts = split_char(s, ',');
    let mut r: Vec<String> = Vec::new();
    let mut i: usize = 0;
    let ghost ps = split_of(s@, ',');
    proof {
        assert(views_of(r@) =~= Seq::<Seq<char>>::empty());
        assert(trimmed_all(ps.take(0)) =~= Seq::<Seq<char>>::empty());
    }
    while i < parts.len()
        invariant
            i <= parts@.len(),
            views_of(parts@) == ps,
            views_of(r@) == trimmed_all(ps.take(i as int)),
        decreases parts@.len() - i,
    {
        proof {
            assert(views_of(parts@)[i as int] == parts@[i as int]@);
        }
        let t = trim_str(parts[i].as_str());
        proof {
            assert(views_of(r@.push(t)) =~= views_of(r@).push(trim_of(ps[i as int])));
            assert(trimmed_all(ps.take(i + 1)) =~= trimmed_all(ps.take(i as int)).push(
                trim_of(ps[i as int]),
            ));
        }
        r.push(t);
        i = i + 1;
    }
    proof {
        assert(ps.take(ps.len() as int) =~= ps);
        assert(views_of(r@).len() == ps.len());
    }
    r
}

/// What starting a session needs from a request: the fresh identifier and
/// the data endpoint to send to.
pub struct SessionStart {
    pub client_id: u64,
    pub endpoint: String,
}

/// The outcome of one request line: the reply to write back, if any, and
/// the session to start, if one was created.
pub struct CommandOutcome {
    pub response: Option<String>,
    pub session: Option<SessionStart>,
}

/// Handles one line from a control connection. A blank line is ignored. A
/// well-formed `STREAM` request is answered with exactly one `OK` and
/// creates exactly one session whose subscription set is the parsed ticker
/// list; any other line is answered with an error and creates nothing.
pub fn handle_command(manager: &mut ClientManager, line: &str, now: u64) -> (out: CommandOutcome)
    requires
        old(manager).wf(),
    ensures
        final(manager).wf(),
        out.response is Some <==> tokens_of(line@).len() > 0,
        out.response is None ==> *final(manager) == *old(manager) && out.session is None,
        (wellformed_request(line@) && old(manager).next_client_id < u64::MAX) ==> {
            &&& out.response is Some && out.response->0@ == ok_word()
            &&& out.session is Some
            &&& out.session->0.client_id == old(manager).next_client_id
            &&& out.session->0.endpoint@ == requested_endpoint(line@)
            &&& final(manager).next_client_id == old(manager).next_client_id + 1
            &&& final(manager).has_session(out.session->0.client_id)
            &&& final(manager).session_at(out.session->0.client_id).last_ping == now
            &&& views_of(
                final(manager).session_at(out.session->0.client_id).subscribed_tickers@,
            ) == requested_tickers(line@)
            &&& final(manager).sessions@ == old(manager).sessions@.push(
                final(manager).session_at(out.session->0.client_id),
            )
        },
        (tokens_of(line@).len() > 0 && !(wellformed_request(line@) && old(manager).next_client_id
            < u64::MAX)) ==> {
            &&& out.response is Some && out.response->0@ != ok_word()
            &&& out.session is None
            &&& *final(manager) == *old(manager)
        },
        wellformed_request(line@) ==> tokens_of(line@).len() > 0,
{
    let toks = split_ws(line);
    proof {
        assert(views_of(toks@).len() == toks@.len());
    }
    if toks.len() == 0 {
        return CommandOutcome { response: None, session: None };
    }
    proof {
        assert(views_of(toks@)[0] == toks@[0]@);
    }
    if toks.len() < 3 || !is_stream_word(toks[0].as_str()) {
        proof {
            reveal_strlit("ERROR unknown command: ");
        }
        return CommandOutcome {
            response: Some(error_response("ERROR unknown command: ", line)),
            session: None,
        };
    }
    proof {
        assert(views_of(toks@)[1] == toks@[1]@);
        assert(views_of(toks@)[2] == toks@[2]@);
    }
    match parse_endpoint(toks[1].as_str()) {
        None => {
            proof {
                reveal_strlit("ERROR bad endpoint: ");
            }
            CommandOutcome {
                response: Some(error_response("ERROR bad endpoint: ", line)),
                session: None,
            }
        },
        Some(endpoint) => {
            if self_full(manager) {
                proof {
                    reveal_strlit("ERROR registry full: ");
                }
                return CommandOutcome {
                    response: Some(error_response("ERROR registry full: ", line)),
                    session: None,
                };
            }
            let tickers = split_ticker_list(toks[2].as_str());
            let client_id = manager.add_client(tickers, now);
            CommandOutcome {
                response: Some(ok_response()),
                session: Some(SessionStart { client_id, endpoint }),
            }
        },
    }
}

/// Whether the registry has run out of fresh identifiers.
fn self_full(manager: &ClientManager) -> (r: bool)
    ensures
        r == (manager.next_client_id == u64::MAX),
{
    manager.next_client_id == u64::MAX
}

/// The ticker symbols of a configuration file: one per line, trimmed, blank
/// lines dropped.
pub fn parse_ticker_lines(content: &str) -> (r: Vec<String>)
    ensures
        views_of(r@) == trimmed_all(split_of(content@, '\n')).filter(
            |t: Seq<char>| t.len() != 0,
        ),
{
    let parts = split_char(content, '\n');
    let mut r: Vec<String> = Vec::new();
    let mut i: usize = 0;
    let ghost ps = split_of(content@, '\n');
    let ghost keep = |t: Seq<char>| t.len() != 0;
    proof {
        assert(views_of(r@) =~= Seq::<Seq<char>>::empty());
        assert(trimmed_all(ps.take(0)) =~= Seq::<Seq<char>>::empty());
        reveal(Seq::filter);
        assert(trimmed_all(ps.take(0)).filter(keep) =~= Seq::<Seq<char>>::empty());
    }
    while i < parts.len()
        invariant
            i <= parts@.len(),
            views_of(parts@) == ps,
            keep == (|t: Seq<char>| t.len() != 0),
            views_of(r@) == trimmed_all(ps.take(i as int)).filter(keep),
        decreases parts@.len() - i,
    {
        proof {
            assert(views_of(parts@)[i as int] == parts@[i as int]@);
        }
        let t = trim_str(parts[i].as_str());
        proof {
            reveal(Seq::filter);
            let pre = trimmed_all(ps.take(i as int));
            let nxt = trimmed_all(ps.take(i + 1));
            assert(nxt =~= pre.push(trim_of(ps[i as int])));
            assert(nxt.drop_last() =~= pre);
            assert(nxt.last() == trim_of(ps[i as int]));
            assert(nxt.filter(keep) == if keep(trim_of(ps[i as int])) {
                pre.filter(keep).push(trim_of(ps[i as int]))
            } else {
                pre.filter(keep)
            });
        }
        if t.unicode_len() > 0 {
            proof {
                assert(views_of(r@.push(t)) =~= views_of(r@).push(trim_of(ps[i as int])));
            }
            r.push(t);
        }
        i = i + 1;
    }
    proof {
        assert(ps.take(ps.len() as int) =~= ps);
    }
    r
}

} // verus!

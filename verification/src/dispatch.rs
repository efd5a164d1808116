//! The per-session quote dispatcher and the laws that tie the loops
//! together: fan-out is a broadcast (every live subscribed session gets
//! every matching quote, independent of the others), a reaped session's
//! loops stop, and a cleared running flag stops every loop.

use vstd::prelude::*;

use crate::heartbeat::{monitor_stops, probe_step_decision, HeartbeatState, ProbeAction};
use crate::quote::StockQuote;
use crate::registry::{active_sessions, inactive_ids, is_inactive, ClientManager};
use crate::strutil::views_of;

verus! {

/// What the dispatcher does with one quote from the feed.
#[derive(Debug)]
pub enum DispatchAction {
    /// The session is gone or shutdown was signalled: leave the loop.
    Stop,
    /// The session does not subscribe to this ticker: drop the quote.
    Skip,
    /// Send this record line to the session's data endpoint.
    Send(String),
}

/// Whether the dispatcher's loop is over: shutdown signalled or session
/// gone from the registry.
pub open spec fn dispatch_stops(m: ClientManager, id: u64, running: bool) -> bool {
    !running || !m.has_session(id)
}

/// Whether session `id` subscribes to this quote's ticker.
pub open spec fn dispatch_matches(m: ClientManager, id: u64, q: StockQuote) -> bool {
    views_of(m.session_at(id).subscribed_tickers@).contains(q.ticker@)
}

/// One quote through the dispatcher of session `id`: stop when the session
/// is gone (it may have been reaped) or shutdown was signalled; otherwise
/// send the record line exactly when the session subscribes to the ticker.
pub fn dispatch_step(m: &ClientManager, id: u64, q: &StockQuote, running: bool) -> (a:
    DispatchAction)
    requires
        m.wf(),
    ensures
        a is Stop <==> dispatch_stops(*m, id, running),
        a is Skip <==> (!dispatch_stops(*m, id, running) && !dispatch_matches(*m, id, *q)),
        a is Send <==> (!dispatch_stops(*m, id, running) && dispatch_matches(*m, id, *q)),
        a matches DispatchAction::Send(line) ==> line@ == q.line_of(),
{
    if !running {
        return DispatchAction::Stop;
    }
    match m.check_client_ticker(id, &q.ticker) {
        None => DispatchAction::Stop,
        Some(false) => DispatchAction::Skip,
        Some(true) => DispatchAction::Send(q.to_line()),
    }
}

/// Fan-out is a broadcast: whether a session receives a quote depends only
/// on that session's own entry, never on which other sessions exist. Two
/// registries that agree on session `id` dispatch every quote to it alike,
/// so no second session can "claim" a quote away from it.
pub proof fn lemma_fan_out(m1: ClientManager, m2: ClientManager, id: u64, q: StockQuote)
    requires
        m1.wf(),
        m2.wf(),
        m1.has_session(id),
        m2.has_session(id),
        m1.session_at(id) == m2.session_at(id),
    ensures
        !dispatch_stops(m1, id, true) && !dispatch_stops(m2, id, true),
        dispatch_matches(m1, id, q) == dispatch_matches(m2, id, q),
        dispatch_matches(m1, id, q) == views_of(m1.session_at(id).subscribed_tickers@).contains(
            q.ticker@,
        ),
{
}

/// Liveness: a session whose last probe is older than the window is evicted
/// by the reaper pass, and its dispatcher and monitor then decide to stop
/// on their next poll.
pub proof fn lemma_liveness(
    before: ClientManager,
    after: ClientManager,
    removed: Seq<u64>,
    id: u64,
    now: u64,
    timeout: u64,
)
    requires
        before.wf(),
        after.sessions@ == active_sessions(before.sessions@, now, timeout),
        after.next_client_id == before.next_client_id,
        removed == inactive_ids(before.sessions@, now, timeout),
        before.has_session(id),
        is_inactive(before.session_at(id), now, timeout),
    ensures
        !after.has_session(id),
        removed.contains(id),
        dispatch_stops(after, id, true),
        monitor_stops(after, id, true),
{
    crate::registry::lemma_reaper_evicts(before, after, removed, id, now, timeout);
}

/// Shutdown: once the running flag is cleared, every loop's next decision
/// is to stop — the dispatcher's, the monitor's and the probe loop's — for
/// every registry, session and probe state whatsoever.
pub proof fn lemma_shutdown_stops(
    m: ClientManager,
    id: u64,
    h: HeartbeatState,
    endpoint_known: bool,
)
    ensures
        dispatch_stops(m, id, false),
        monitor_stops(m, id, false),
        probe_step_decision(h, endpoint_known, false) is Stop,
{
}

} // verus!

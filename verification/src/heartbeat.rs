//! The liveness protocol, both roles. The client side keeps a probe state
//! (when the last probe went out, when the last acknowledgment came back)
//! and declares the link dead once the window is exceeded; the server side
//! answers probes and refreshes the registry. All decisions are functions of
//! the state, the incoming bytes and the clock reading handed in.

use vstd::prelude::*;

use crate::quote::{is_ping, ping_bytes};
use crate::registry::ClientManager;

verus! {

/// The probe state of one end of the link. Part of the session on the
/// server; a local value on the client.
#[derive(Debug, Clone, Copy)]
pub struct HeartbeatState {
    pub last_probe_sent: Option<u64>,
    pub last_probe_acked: Option<u64>,
    pub stopped: bool,
}

/// The link is dead when a probe went out and no acknowledgment ever came
/// within the window, or the most recent acknowledgment is itself older
/// than the window.
pub open spec fn link_dead(h: HeartbeatState, now: u64, window: u64) -> bool {
    match h.last_probe_sent {
        Option::None => false,
        Option::Some(sent) => match h.last_probe_acked {
            Option::None => now - sent > window,
            Option::Some(acked) => now - acked > window,
        },
    }
}

/// The phases of the liveness protocol: no probe yet, probe outstanding,
/// acknowledged within the window, or dead for good.
#[derive(Debug)]
pub enum HeartbeatPhase {
    Idle,
    AwaitingAck,
    Alive,
    Dead,
}

/// The phase a probe state is in at clock reading `now`.
pub open spec fn phase_of(h: HeartbeatState, now: u64, window: u64) -> HeartbeatPhase {
    if h.stopped || link_dead(h, now, window) {
        HeartbeatPhase::Dead
    } else {
        match h.last_probe_sent {
            Option::None => HeartbeatPhase::Idle,
            Option::Some(sent) => match h.last_probe_acked {
                Option::None => HeartbeatPhase::AwaitingAck,
                Option::Some(acked) => if acked >= sent {
                    HeartbeatPhase::Alive
                } else {
                    HeartbeatPhase::AwaitingAck
                },
            },
        }
    }
}

/// What the probe loop does on one tick.
#[derive(Debug)]
pub enum ProbeAction {
    /// Leave the loop for good.
    Stop,
    /// Send one probe now.
    Send,
    /// Do nothing this tick: the peer's address is not known yet.
    Wait,
}

impl HeartbeatState {
    /// The state before any probe: nothing sent, nothing acknowledged.
    pub fn new() -> (h: HeartbeatState)
        ensures
            h.last_probe_sent is None,
            h.last_probe_acked is None,
            !h.stopped,
    {
        HeartbeatState { last_probe_sent: None, last_probe_acked: None, stopped: false }
    }

    /// Records that a probe went out at `now`.
    pub fn note_probe_sent(&mut self, now: u64)
        ensures
            *final(self) == (HeartbeatState { last_probe_sent: Some(now), ..*old(self) }),
    {
        self.last_probe_sent = Some(now);
    }

    /// Records an acknowledgment received at `now`; one that arrives before
    /// any probe was sent is ignored.
    pub fn note_ack(&mut self, now: u64)
        ensures
            old(self).last_probe_sent is Some ==> *final(self) == (HeartbeatState {
                last_probe_acked: Some(now),
                ..*old(self)
            }),
            old(self).last_probe_sent is None ==> *final(self) == *old(self),
    {
        if self.last_probe_sent.is_some() {
            self.last_probe_acked = Some(now);
        }
    }

    /// Checks the window at clock reading `now`: exactly when the link is
    /// dead, marks the state stopped for good and reports it.
    pub fn check_liveness(&mut self, now: u64, window: u64) -> (dead: bool)
        ensures
            dead == link_dead(*old(self), now, window),
            dead ==> *final(self) == (HeartbeatState { stopped: true, ..*old(self) }),
            !dead ==> *final(self) == *old(self),
    {
        let dead = match self.last_probe_sent {
            None => false,
            Some(sent) => match self.last_probe_acked {
                None => sent < now && now - sent > window,
                Some(acked) => acked < now && now - acked > window,
            },
        };
        if dead {
            self.stopped = true;
        }
        dead
    }
}

/// One tick of the probe loop: stop when shutdown was signalled or the link
/// was declared dead, send a probe when the peer's address is known, wait
/// otherwise.
pub fn probe_step(h: &HeartbeatState, endpoint_known: bool, running: bool) -> (a: ProbeAction)
    ensures
        a is Stop <==> (!running || (endpoint_known && h.stopped)),
        a is Wait <==> (running && !endpoint_known),
        a is Send <==> (running && endpoint_known && !h.stopped),
        a == probe_step_decision(*h, endpoint_known, running),
{
    if !running {
        ProbeAction::Stop
    } else if !endpoint_known {
        ProbeAction::Wait
    } else if h.stopped {
        ProbeAction::Stop
    } else {
        ProbeAction::Send
    }
}

/// What the server-side monitor does with one datagram.
#[derive(Debug)]
pub enum MonitorAction {
    /// The session is gone or shutdown was signalled: leave the loop.
    Stop,
    /// The datagram was a probe from a live session: acknowledge it.
    ReplyPong,
    /// Anything else: ignore it and keep listening.
    Ignore,
}

/// Whether the monitor's loop is over: shutdown signalled or session gone.
pub open spec fn monitor_stops(m: ClientManager, id: u64, running: bool) -> bool {
    !running || !m.has_session(id)
}

/// One datagram through the server-side monitor of session `id`: a probe
/// from a live session refreshes its `last_ping` to `now` and is answered;
/// a probe for a vanished session stops the monitor; other datagrams are
/// ignored. Nothing else in the registry changes.
pub fn monitor_step(
    m: &mut ClientManager,
    id: u64,
    datagram: &[u8],
    now: u64,
    running: bool,
) -> (a: MonitorAction)
    requires
        old(m).wf(),
    ensures
        final(m).wf(),
        final(m).next_client_id == old(m).next_client_id,
        a is Stop <==> monitor_stops(*old(m), id, running),
        monitor_stops(*old(m), id, running) ==> *final(m) == *old(m),
        a is ReplyPong <==> (!monitor_stops(*old(m), id, running) && datagram@ == ping_bytes()),
        a is ReplyPong ==> {
            &&& final(m).has_session(id)
            &&& final(m).session_at(id).last_ping == now
            &&& final(m).session_at(id).subscribed_tickers == old(m).session_at(
                id,
            ).subscribed_tickers
            &&& final(m).session_at(id).id == old(m).session_at(id).id
        },
        a is Ignore <==> (!monitor_stops(*old(m), id, running) && datagram@ != ping_bytes()),
        a is Ignore ==> *final(m) == *old(m),
        forall|o: u64| o != id ==> (final(m).has_session(o) <==> old(m).has_session(o)),
        forall|o: u64|
            o != id && old(m).has_session(o) ==> final(m).session_at(o) == old(m).session_at(o),
{
    if !running {
        return MonitorAction::Stop;
    }
    if !m.has_client(id) {
        return MonitorAction::Stop;
    }
    if is_ping(datagram) {
        let touched = m.update_ping(id, now);
        MonitorAction::ReplyPong
    } else {
        MonitorAction::Ignore
    }
}

/// The window failing while a probe is outstanding, or while the last
/// acknowledgment has gone stale, is death: there is no other reading of a
/// dead link.
pub proof fn lemma_window_exceeded_dead(h: HeartbeatState, now: u64, window: u64)
    requires
        link_dead(h, now, window),
    ensures
        phase_of(h, now, window) is Dead,
{
}

/// Death is terminal: once the state is stopped, the window check changes
/// nothing and the probe loop only stops.
pub proof fn lemma_dead_is_terminal(h: HeartbeatState, now: u64, window: u64, endpoint_known: bool)
    requires
        h.stopped,
    ensures
        phase_of(h, now, window) is Dead,
        !(probe_step_decision(h, endpoint_known, true) is Send),
{
}

/// The decision [`probe_step`] returns, as a value.
pub open spec fn probe_step_decision(
    h: HeartbeatState,
    endpoint_known: bool,
    running: bool,
) -> ProbeAction {
    if !running || (endpoint_known && h.stopped) {
        ProbeAction::Stop
    } else if !endpoint_known {
        ProbeAction::Wait
    } else {
        ProbeAction::Send
    }
}

/// An acknowledgment that arrives within the window while a probe is
/// outstanding moves the link to `Alive`.
pub proof fn lemma_ack_revives(h: HeartbeatState, now: u64, window: u64)
    requires
        phase_of(h, now, window) is AwaitingAck,
        h.last_probe_sent matches Some(sent) && sent <= now,
    ensures
        phase_of(
            (HeartbeatState { last_probe_acked: Some(now), ..h }),
            now,
            window,
        ) is Alive,
{
}

/// Sending a probe from a live idle state leaves the link awaiting the
/// acknowledgment, not dead.
pub proof fn lemma_probe_arms(h: HeartbeatState, now: u64, window: u64)
    requires
        phase_of(h, now, window) is Idle || phase_of(h, now, window) is Alive,
        h.last_probe_acked is Some ==> !(now - h.last_probe_acked->0 > window),
    ensures
        !(phase_of((HeartbeatState { last_probe_sent: Some(now), ..h }), now, window) is Dead),
        h.last_probe_acked is None ==> phase_of(
            (HeartbeatState { last_probe_sent: Some(now), ..h }),
            now,
            window,
        ) is AwaitingAck,
{
}

} // verus!

use quote_stream::dispatch::{dispatch_step, DispatchAction};
use quote_stream::heartbeat::{monitor_step, probe_step, HeartbeatState, MonitorAction, ProbeAction};
use quote_stream::quote::StockQuote;
use quote_stream::registry::ClientManager;

fn tickers(names: &[&str]) -> Vec<String> {
    names.iter().map(|s| s.to_string()).collect()
}

fn quote(ticker: &str, timestamp: u64) -> StockQuote {
    StockQuote {
        ticker: ticker.to_string(),
        price: "10.0".to_string(),
        volume: "100".to_string(),
        timestamp,
    }
}

#[test]
fn registry_add_touch_check_remove() {
    let mut m = ClientManager::new();
    let id = m.add_client(tickers(&["AAPL", "MSFT"]), 50);
    assert_eq!(id, 1);
    assert!(m.has_client(id));
    assert_eq!(m.check_client_ticker(id, &"AAPL".to_string()), Some(true));
    assert_eq!(m.check_client_ticker(id, &"TSLA".to_string()), Some(false));
    assert_eq!(m.check_client_ticker(7, &"AAPL".to_string()), None);
    assert!(m.update_ping(id, 60));
    assert_eq!(m.sessions[0].last_ping, 60);
    assert!(!m.update_ping(7, 60));
    m.remove_client(id);
    assert!(!m.has_client(id));
    m.remove_client(id);
    assert_eq!(m.sessions.len(), 0);
}

#[test]
fn inactivity_is_strictly_older_than_the_window() {
    let mut m = ClientManager::new();
    let a = m.add_client(tickers(&["A"]), 100);
    let b = m.add_client(tickers(&["B"]), 105);
    // 5 seconds old exactly: still active; 6 seconds: inactive.
    assert_eq!(m.get_inactive_clients(105, 5), Vec::<u64>::new());
    assert_eq!(m.get_inactive_clients(106, 5), vec![a]);
    assert_eq!(m.get_inactive_clients(111, 5), vec![a, b]);
    // A probe refresh brings a session back below the window.
    m.update_ping(a, 110);
    assert_eq!(m.get_inactive_clients(111, 5), vec![b]);
}

#[test]
fn reaper_cycle_with_five_second_timeout() {
    // Registry timeout 5 s, one subscription to AAPL: a session whose last
    // probe response is 6 s old shows up as inactive and is gone after the
    // reaper pass.
    let mut m = ClientManager::new();
    let id = m.add_client(tickers(&["AAPL"]), 1000);
    let now = 1006;
    assert_eq!(m.get_inactive_clients(now, 5), vec![id]);
    let removed = m.reap_inactive(now, 5);
    assert_eq!(removed, vec![id]);
    assert!(!m.has_client(id));
    assert_eq!(m.sessions.len(), 0);
}

#[test]
fn reaper_leaves_active_sessions_in_order() {
    let mut m = ClientManager::new();
    let a = m.add_client(tickers(&["A"]), 10);
    let b = m.add_client(tickers(&["B"]), 100);
    let c = m.add_client(tickers(&["C"]), 12);
    let removed = m.reap_inactive(100, 30);
    assert_eq!(removed, vec![a, c]);
    assert_eq!(m.sessions.len(), 1);
    assert_eq!(m.sessions[0].id, b);
}

#[test]
fn reaped_session_stops_its_dispatcher_and_monitor() {
    let mut m = ClientManager::new();
    let id = m.add_client(tickers(&["AAPL"]), 0);
    m.reap_inactive(100, 5);
    assert!(matches!(
        dispatch_step(&m, id, &quote("AAPL", 1), true),
        DispatchAction::Stop
    ));
    assert!(matches!(
        monitor_step(&mut m, id, b"PING", 100, true),
        MonitorAction::Stop
    ));
}

#[test]
fn fan_out_two_sessions_overlapping_subscriptions() {
    let mut m = ClientManager::new();
    let one = m.add_client(tickers(&["AAPL", "MSFT"]), 0);
    let two = m.add_client(tickers(&["MSFT", "TSLA"]), 0);
    let apple = quote("AAPL", 1);
    let micro = quote("MSFT", 2);
    let tesla = quote("TSLA", 3);

    // Session one receives exactly its own matches.
    match dispatch_step(&m, one, &apple, true) {
        DispatchAction::Send(line) => assert_eq!(line, "AAPL|10.0|100|1"),
        other => panic!("expected a send, got {:?}", line_name(&other)),
    }
    assert!(matches!(dispatch_step(&m, one, &micro, true), DispatchAction::Send(_)));
    assert!(matches!(dispatch_step(&m, one, &tesla, true), DispatchAction::Skip));

    // Session two receives exactly its own matches: the shared ticker goes
    // to both, the disjoint ones only to their subscriber.
    assert!(matches!(dispatch_step(&m, two, &apple, true), DispatchAction::Skip));
    assert!(matches!(dispatch_step(&m, two, &micro, true), DispatchAction::Send(_)));
    assert!(matches!(dispatch_step(&m, two, &tesla, true), DispatchAction::Send(_)));
}

fn line_name(a: &DispatchAction) -> &'static str {
    match a {
        DispatchAction::Stop => "stop",
        DispatchAction::Skip => "skip",
        DispatchAction::Send(_) => "send",
    }
}

#[test]
fn monitor_answers_probes_and_refreshes_last_seen() {
    let mut m = ClientManager::new();
    let id = m.add_client(tickers(&["A"]), 10);
    assert!(matches!(
        monitor_step(&mut m, id, b"PING", 42, true),
        MonitorAction::ReplyPong
    ));
    assert_eq!(m.sessions[0].last_ping, 42);
    assert!(matches!(
        monitor_step(&mut m, id, b"JUNK", 50, true),
        MonitorAction::Ignore
    ));
    assert_eq!(m.sessions[0].last_ping, 42);
    assert!(matches!(
        monitor_step(&mut m, 99, b"PING", 50, true),
        MonitorAction::Stop
    ));
}

#[test]
fn heartbeat_driver_declares_death_after_the_window() {
    let mut h = HeartbeatState::new();
    // No probe sent yet: never dead.
    assert!(!h.check_liveness(1000, 5));
    h.note_probe_sent(1000);
    assert!(!h.check_liveness(1005, 5));
    // Unacknowledged probe older than the window: dead for good.
    assert!(h.check_liveness(1006, 5));
    assert!(h.stopped);
}

#[test]
fn heartbeat_driver_stays_alive_while_acks_arrive() {
    let mut h = HeartbeatState::new();
    h.note_probe_sent(1000);
    h.note_ack(1002);
    assert!(!h.check_liveness(1006, 5));
    h.note_probe_sent(1004);
    assert!(!h.check_liveness(1007, 5));
    // The last acknowledgment itself goes stale.
    assert!(h.check_liveness(1008, 5));
}

#[test]
fn ack_before_any_probe_is_ignored() {
    let mut h = HeartbeatState::new();
    h.note_ack(5);
    assert!(h.last_probe_acked.is_none());
}

#[test]
fn probe_loop_decisions() {
    let h = HeartbeatState::new();
    assert!(matches!(probe_step(&h, false, true), ProbeAction::Wait));
    assert!(matches!(probe_step(&h, true, true), ProbeAction::Send));
    let mut dead = HeartbeatState::new();
    dead.note_probe_sent(0);
    assert!(dead.check_liveness(100, 5));
    assert!(matches!(probe_step(&dead, true, true), ProbeAction::Stop));
    // An unknown endpoint keeps waiting even on a stopped state.
    assert!(matches!(probe_step(&dead, false, true), ProbeAction::Wait));
}

#[test]
fn cleared_running_flag_stops_every_loop() {
    let mut m = ClientManager::new();
    let id = m.add_client(tickers(&["AAPL"]), 0);
    let h = HeartbeatState::new();
    assert!(matches!(
        dispatch_step(&m, id, &quote("AAPL", 1), false),
        DispatchAction::Stop
    ));
    assert!(matches!(
        monitor_step(&mut m, id, b"PING", 1, false),
        MonitorAction::Stop
    ));
    assert!(matches!(probe_step(&h, true, false), ProbeAction::Stop));
    assert!(matches!(probe_step(&h, false, false), ProbeAction::Stop));
    // The stopped loops left the session untouched.
    assert_eq!(m.sessions[0].last_ping, 0);
}

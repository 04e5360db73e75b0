use fantasy_hockey::error::Error;
use fantasy_hockey::nhl_api::cache::ResponseCache;
use fantasy_hockey::nhl_api::retry::{FetchAction, FetchEvent, FetchState};

#[test]
fn cache_reads_back_writes_until_they_expire() {
    let mut c = ResponseCache::new();
    assert_eq!(c.lookup("u1", 0), None);
    c.store("u1", "body-1".to_string(), 1_000, 500);
    c.store("u2", "body-2".to_string(), 1_000, 10_000);
    assert_eq!(c.lookup("u1", 1_000).as_deref(), Some("body-1"));
    assert_eq!(c.lookup("u1", 1_500).as_deref(), Some("body-1"));
    assert_eq!(c.lookup("u1", 1_501), None);
    assert_eq!(c.lookup("u1", 900).as_deref(), Some("body-1"));
    assert_eq!(c.lookup("u3", 1_000), None);
    c.store("u1", "body-1b".to_string(), 2_000, 500);
    assert_eq!(c.len(), 2);
    assert_eq!(c.lookup("u1", 2_100).as_deref(), Some("body-1b"));
    assert_eq!(c.lookup("u2", 2_100).as_deref(), Some("body-2"));
}

#[test]
fn cache_cleanup_drops_only_expired_entries() {
    let mut c = ResponseCache::new();
    c.store("a", "A".to_string(), 0, 100);
    c.store("b", "B".to_string(), 0, 1_000);
    c.store("c", "C".to_string(), 50, 100);
    assert_eq!(c.remove_expired(151), 2);
    assert_eq!(c.len(), 1);
    assert_eq!(c.lookup("b", 151).as_deref(), Some("B"));
    assert_eq!(c.lookup("a", 151), None);
    assert_eq!(c.clear(), 1);
    assert_eq!(c.len(), 0);
}

#[test]
fn rate_limits_are_retried_three_times_with_growing_waits() {
    let mut s = FetchState::new();
    let mut waits = vec![];
    loop {
        match s.next_step(FetchEvent::RateLimited) {
            FetchAction::RetryAfterMs(ms) => waits.push(ms),
            FetchAction::Fail(Error::NhlApi(m)) => {
                assert_eq!(m, "NHL API rate limit exceeded after retries");
                break;
            }
            other => panic!("unexpected {:?}", other),
        }
    }
    assert_eq!(waits, vec![500, 1000, 1500]);
    assert_eq!(s.retries, 4);
}

#[test]
fn other_failures_and_success_end_the_loop() {
    let mut s = FetchState::new();
    match s.next_step(FetchEvent::Failed {
        status: "404 Not Found".to_string(),
        body: "no such game".to_string(),
    }) {
        FetchAction::Fail(Error::NhlApi(m)) => {
            assert_eq!(m, "NHL API returned status 404 Not Found: no such game")
        }
        other => panic!("unexpected {:?}", other),
    }
    assert!(matches!(s.next_step(FetchEvent::Succeeded), FetchAction::ReadBody));
    assert_eq!(s.retries, 0);
}

use fantasy_hockey::nhl_api::cache::{boxscore_ttl_ms, TTL_BOXSCORE_FINAL_MS, TTL_BOXSCORE_LIVE_MS};

#[test]
fn finished_boxscores_are_kept_for_a_day() {
    assert_eq!(boxscore_ttl_ms("FINAL"), TTL_BOXSCORE_FINAL_MS);
    assert_eq!(boxscore_ttl_ms("OFF"), 86_400_000);
    assert_eq!(boxscore_ttl_ms("LIVE"), TTL_BOXSCORE_LIVE_MS);
    assert_eq!(boxscore_ttl_ms(""), 60_000);
}

use fantasy_hockey::ws::draft_socket::{socket_step, OutFrame, SocketAction, SocketEvent};

#[test]
fn draft_socket_forwards_answers_and_disconnects() {
    assert!(matches!(socket_step(SocketEvent::PingDue), SocketAction::Send(OutFrame::Ping)));
    match socket_step(SocketEvent::Broadcast("{\"type\":\"sleeperUpdated\"}".to_string())) {
        SocketAction::Send(OutFrame::Text(t)) => assert_eq!(t, "{\"type\":\"sleeperUpdated\"}"),
        other => panic!("unexpected {:?}", other),
    }
    match socket_step(SocketEvent::ClientPing(vec![1, 2, 3])) {
        SocketAction::Send(OutFrame::Pong(d)) => assert_eq!(d, vec![1, 2, 3]),
        other => panic!("unexpected {:?}", other),
    }
    assert!(matches!(socket_step(SocketEvent::BroadcastLagged(7)), SocketAction::Wait));
    assert!(matches!(socket_step(SocketEvent::ClientPong), SocketAction::Wait));
    assert!(matches!(socket_step(SocketEvent::ClientMessage), SocketAction::Wait));
    assert!(matches!(socket_step(SocketEvent::BroadcastClosed), SocketAction::Disconnect));
    assert!(matches!(socket_step(SocketEvent::ClientClosed), SocketAction::Disconnect));
    assert!(matches!(socket_step(SocketEvent::ClientError), SocketAction::Disconnect));
    assert!(matches!(socket_step(SocketEvent::SendFailed), SocketAction::Disconnect));
}

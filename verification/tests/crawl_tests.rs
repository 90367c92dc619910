use nba_hub::crawl::{
    FetchConfig, FetchDecision, FetchError, FetchSession, HostClock, HttpOutcome,
};
use nba_hub::robots::RobotsRules;

fn config() -> FetchConfig {
    FetchConfig::new("testbot".to_string(), 1000)
}

#[test]
fn invalid_urls_are_rejected() {
    let r = FetchSession::start("not a url", config());
    assert!(matches!(r, Err(FetchError::InvalidUrl)));
    // a URL without a host is as unusable as no URL
    let r2 = FetchSession::start("mailto:someone@example.com", config());
    assert!(matches!(r2, Err(FetchError::InvalidUrl)));
}

#[test]
fn session_reads_host_and_robots_url() {
    let s = FetchSession::start("https://www.example.com/page?q=1", config()).unwrap();
    assert_eq!(s.host(), "www.example.com");
    assert_eq!(s.url(), "https://www.example.com/page?q=1");
    assert_eq!(s.robots_url(), "https://www.example.com/robots.txt");
}

#[test]
fn disallowed_robots_fails_without_any_request() {
    let mut s = FetchSession::start("https://example.com/blocked", config()).unwrap();
    let rules = RobotsRules { allowed: false, crawl_delay_ms: Some(5000) };
    let r = s.apply_robots(&rules);
    assert!(matches!(r, Err(FetchError::RobotsDisallowed)));
}

#[test]
fn crawl_delay_overrides_engine_default() {
    // the host declares five seconds; the engine default of one second
    // must not shorten it
    let mut s = FetchSession::start("https://example.com/a", config()).unwrap();
    let rules = RobotsRules { allowed: true, crawl_delay_ms: Some(5000) };
    s.apply_robots(&rules).unwrap();
    assert_eq!(s.effective_delay(), 5000);
}

#[test]
fn default_delay_used_without_crawl_delay() {
    let mut s = FetchSession::start("https://example.com/a", config()).unwrap();
    let rules = RobotsRules { allowed: true, crawl_delay_ms: None };
    s.apply_robots(&rules).unwrap();
    assert_eq!(s.effective_delay(), 1000);
}

#[test]
fn success_returns_the_body() {
    let mut s = FetchSession::start("https://example.com/a", config()).unwrap();
    s.apply_robots(&RobotsRules { allowed: true, crawl_delay_ms: None }).unwrap();
    let attempt = s.next_request();
    assert_eq!(attempt, 1);
    let d = s.on_response(HttpOutcome::Completed { status: 200, body: "payload".to_string() });
    match d {
        FetchDecision::Finished(body) => assert_eq!(body, "payload"),
        _ => panic!("expected the fetch to finish"),
    }
}

#[test]
fn retries_back_off_linearly_then_fail() {
    let mut s = FetchSession::start("https://example.com/a", config()).unwrap();
    s.apply_robots(&RobotsRules { allowed: true, crawl_delay_ms: None }).unwrap();

    assert_eq!(s.next_request(), 1);
    let d1 = s.on_response(HttpOutcome::Completed { status: 503, body: String::new() });
    match d1 {
        FetchDecision::Retry { backoff_ms } => assert_eq!(backoff_ms, 500),
        _ => panic!("first failure should retry"),
    }

    assert_eq!(s.next_request(), 2);
    let d2 = s.on_response(HttpOutcome::Transport { message: "reset".to_string() });
    match d2 {
        FetchDecision::Retry { backoff_ms } => assert_eq!(backoff_ms, 1000),
        _ => panic!("second failure should retry"),
    }

    assert_eq!(s.next_request(), 3);
    let d3 = s.on_response(HttpOutcome::Completed { status: 503, body: String::new() });
    match d3 {
        FetchDecision::Failed(FetchError::HttpStatus(status)) => assert_eq!(status, 503),
        _ => panic!("the third failure exhausts the retry ceiling"),
    }
}

#[test]
fn transport_failure_after_ceiling_is_terminal() {
    let mut s = FetchSession::start("https://example.com/a", config()).unwrap();
    s.apply_robots(&RobotsRules { allowed: true, crawl_delay_ms: None }).unwrap();
    for attempt in 1..=2 {
        assert_eq!(s.next_request(), attempt);
        let d = s.on_response(HttpOutcome::Transport { message: "down".to_string() });
        assert!(matches!(d, FetchDecision::Retry { .. }));
    }
    assert_eq!(s.next_request(), 3);
    let d = s.on_response(HttpOutcome::Transport { message: "down".to_string() });
    match d {
        FetchDecision::Failed(FetchError::Network(msg)) => assert_eq!(msg, "down"),
        _ => panic!("expected a terminal network error"),
    }
}

#[test]
fn host_clock_enforces_spacing() {
    let mut clock = HostClock::new(5000);
    // nothing recorded yet: no wait
    assert_eq!(clock.wait_needed(123), 0);
    clock.record(1000);
    assert_eq!(clock.wait_needed(2000), 4000);
    assert_eq!(clock.wait_needed(5999), 1);
    assert_eq!(clock.wait_needed(6000), 0);
    clock.record(6000);
    assert_eq!(clock.wait_needed(6001), 4999);
}

#[test]
fn five_second_robots_delay_spaces_requests() {
    // robots.txt declares five seconds while the engine default is one:
    // the effective spacing between consecutive requests is five seconds
    let mut s = FetchSession::start("https://example.com/a", config()).unwrap();
    s.apply_robots(&RobotsRules {
        allowed: true,
        crawl_delay_ms: nba_hub::robots::parse_crawl_delay(
            "User-agent: *\nCrawl-delay: 5",
            "testbot",
        ),
    })
        .unwrap();
    assert_eq!(s.effective_delay(), 5000);
    let mut clock = HostClock::new(s.effective_delay());
    clock.record(0);
    assert_eq!(clock.wait_needed(1000), 4000);
    assert_eq!(clock.wait_needed(5000), 0);
    clock.record(5000);
    assert_eq!(clock.wait_needed(9000), 1000);
}

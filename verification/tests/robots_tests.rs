use nba_hub::robots::{evaluate_robots, parse_crawl_delay};

const AGENT: &str = "NBA Hub Scraper (nba-hub-bot)";

#[test]
fn wildcard_crawl_delay_applies_to_any_agent() {
    let body = "User-agent: *\nCrawl-delay: 5";
    assert_eq!(parse_crawl_delay(body, AGENT), Some(5000));
    assert_eq!(parse_crawl_delay(body, "someone-else"), Some(5000));
}

#[test]
fn exact_agent_match_beats_wildcard() {
    let body = "User-agent: *\nCrawl-delay: 5\n\nUser-agent: mybot\nCrawl-delay: 2\n";
    assert_eq!(parse_crawl_delay(body, "mybot"), Some(2000));
    assert_eq!(parse_crawl_delay(body, "otherbot"), Some(5000));
}

#[test]
fn agent_matching_is_case_insensitive() {
    let body = "User-Agent: MyBot\nCrawl-Delay: 3";
    assert_eq!(parse_crawl_delay(body, "mybot"), Some(3000));
    assert_eq!(parse_crawl_delay(body, "MYBOT"), Some(3000));
}

#[test]
fn delay_applies_to_all_agents_of_the_group() {
    let body = "User-agent: alpha\nUser-agent: beta\nCrawl-delay: 3";
    assert_eq!(parse_crawl_delay(body, "alpha"), Some(3000));
    assert_eq!(parse_crawl_delay(body, "beta"), Some(3000));
    assert_eq!(parse_crawl_delay(body, "gamma"), None);
}

#[test]
fn a_directive_run_ends_the_group() {
    // the second User-agent line after a directive starts a new group
    let body = "User-agent: alpha\nDisallow: /x\nUser-agent: beta\nCrawl-delay: 7";
    assert_eq!(parse_crawl_delay(body, "alpha"), None);
    assert_eq!(parse_crawl_delay(body, "beta"), Some(7000));
}

#[test]
fn later_wildcard_group_wins() {
    let body = "User-agent: *\nCrawl-delay: 2\n\nUser-agent: *\nCrawl-delay: 9";
    assert_eq!(parse_crawl_delay(body, "anyone"), Some(9000));
}

#[test]
fn exact_group_without_delay_masks_the_wildcard() {
    let body = "User-agent: *\nCrawl-delay: 2\n\nUser-agent: mybot\nDisallow: /private";
    assert_eq!(parse_crawl_delay(body, "mybot"), None);
}

#[test]
fn comments_and_blank_space_are_ignored() {
    let body = "User-agent: * # everyone\n  Crawl-delay:  4  # be gentle\n";
    assert_eq!(parse_crawl_delay(body, AGENT), Some(4000));
}

#[test]
fn fractional_and_bad_delays() {
    assert_eq!(parse_crawl_delay("User-agent: *\nCrawl-delay: 2.5", AGENT), Some(2500));
    assert_eq!(parse_crawl_delay("User-agent: *\nCrawl-delay: .5", AGENT), Some(500));
    assert_eq!(parse_crawl_delay("User-agent: *\nCrawl-delay: -1", AGENT), None);
    assert_eq!(parse_crawl_delay("User-agent: *\nCrawl-delay: soon", AGENT), None);
    assert_eq!(parse_crawl_delay("User-agent: *\nCrawl-delay: 0.0015", AGENT), Some(1));
}

#[test]
fn no_rules_no_delay() {
    assert_eq!(parse_crawl_delay("", AGENT), None);
    assert_eq!(parse_crawl_delay("Disallow: /", AGENT), None);
}

#[test]
fn overlong_lines_are_survived() {
    // one line far past the matcher's per-line byte cap, with multi-byte
    // characters in the excess; the rules around it still apply
    let mut body = String::from("User-agent: *\nDisallow: /private\nCrawl-delay: 5\n");
    body.push_str(&"a".repeat(16663));
    body.push_str(&"\u{e9}".repeat(32));
    body.push('\n');
    body.push_str("Disallow: /extra\n");
    let rules = evaluate_robots(Some(&body), AGENT, "https://example.com/private/x");
    assert!(!rules.allowed);
    assert_eq!(rules.crawl_delay_ms, Some(5000));
    let open = evaluate_robots(Some(&body), AGENT, "https://example.com/ok");
    assert!(open.allowed);
}

#[test]
fn missing_robots_allows_everything() {
    let rules = evaluate_robots(None, AGENT, "https://example.com/page");
    assert!(rules.allowed);
    assert_eq!(rules.crawl_delay_ms, None);
}

#[test]
fn fetched_robots_decides_allow_and_delay() {
    let body = "User-agent: *\nDisallow: /private\nCrawl-delay: 5\n";
    let blocked = evaluate_robots(Some(body), AGENT, "https://example.com/private/stats");
    assert!(!blocked.allowed);
    assert_eq!(blocked.crawl_delay_ms, Some(5000));
    let open = evaluate_robots(Some(body), AGENT, "https://example.com/public");
    assert!(open.allowed);
    assert_eq!(open.crawl_delay_ms, Some(5000));
}

use nba_hub::config::raw_data_dir;
use nba_hub::date::{collect_dates, format_yyyymmdd, next_day, parse_yyyymmdd, Date, DateRangeError};
use nba_hub::format::{build_team_lookup, format_optional_i32, format_team_label};
use nba_hub::glossary::stat_definition;
use nba_hub::models::TeamHistoryRow;
use nba_hub::parsing::{parse_opt_bool, parse_opt_i32, parse_opt_i64, parse_opt_string};
use nba_hub::schema::{Coach, TeamHistorySpan};
use nba_hub::seed::{
    build_game, build_player, build_team_history_row, dedupe_coaches, end_of_season_award_type,
    reference_leagues, reference_seasons, MissingKeys,
};

#[test]
fn raw_data_dir_is_under_the_data_dir() {
    assert_eq!(raw_data_dir("data"), "data/raw");
}

#[test]
fn dates_parse_only_when_real() {
    assert_eq!(
        parse_yyyymmdd("20230514"),
        Some(Date { year: 2023, month: 5, day: 14 })
    );
    // February 29th exists only in leap years
    assert_eq!(parse_yyyymmdd("20230229"), None);
    assert_eq!(
        parse_yyyymmdd("20240229"),
        Some(Date { year: 2024, month: 2, day: 29 })
    );
    assert_eq!(parse_yyyymmdd("2023051"), None);
    assert_eq!(parse_yyyymmdd("2023-5-1"), None);
    assert_eq!(parse_yyyymmdd("20231301"), None);
}

#[test]
fn dates_format_back_to_eight_digits() {
    let d = Date { year: 987, month: 3, day: 9 };
    assert_eq!(format_yyyymmdd(&d), "09870309");
    let e = Date { year: 2024, month: 12, day: 31 };
    assert_eq!(format_yyyymmdd(&e), "20241231");
}

#[test]
fn next_day_rolls_months_and_years() {
    assert_eq!(
        next_day(&Date { year: 2023, month: 12, day: 31 }),
        Date { year: 2024, month: 1, day: 1 }
    );
    assert_eq!(
        next_day(&Date { year: 2024, month: 2, day: 28 }),
        Date { year: 2024, month: 2, day: 29 }
    );
}

#[test]
fn collect_dates_enumerates_the_range() {
    let r = collect_dates(None, Some("20231230".to_string()), Some("20240102".to_string()));
    assert_eq!(
        r.unwrap(),
        vec!["20231230", "20231231", "20240101", "20240102"]
    );
}

#[test]
fn collect_dates_edge_cases() {
    // a single date passes through untouched
    let single = collect_dates(Some("20230101".to_string()), None, None);
    assert_eq!(single.unwrap(), vec!["20230101"]);
    // missing bounds mean nothing to do
    assert_eq!(collect_dates(None, None, None).unwrap().len(), 0);
    assert_eq!(collect_dates(None, Some("20230101".to_string()), None).unwrap().len(), 0);
    // a reversed range is an error
    let r = collect_dates(None, Some("20230102".to_string()), Some("20230101".to_string()));
    assert_eq!(r.unwrap_err(), DateRangeError::EndBeforeStart);
    // unreadable bounds are errors
    let r2 = collect_dates(None, Some("2023x101".to_string()), Some("20230102".to_string()));
    assert_eq!(r2.unwrap_err(), DateRangeError::Invalid("2023x101".to_string()));
}

#[test]
fn optional_fields_parse_per_shape() {
    assert_eq!(parse_opt_i64("  42 "), Ok(Some(42)));
    assert_eq!(parse_opt_i64(""), Ok(None));
    assert_eq!(parse_opt_i64("  "), Ok(None));
    assert!(parse_opt_i64("4x2").is_err());
    assert_eq!(parse_opt_i32("-7"), Ok(Some(-7)));
    assert!(parse_opt_i32("3000000000").is_err());
    assert_eq!(parse_opt_bool(" True "), Ok(Some(true)));
    assert_eq!(parse_opt_bool("0"), Ok(Some(false)));
    assert_eq!(parse_opt_bool("yes"), Ok(Some(true)));
    assert_eq!(parse_opt_bool(""), Ok(None));
    assert!(parse_opt_bool("maybe").is_err());
    assert_eq!(parse_opt_string("  x  "), Some("x".to_string()));
    assert_eq!(parse_opt_string("   "), None);
}

#[test]
fn reference_tables_have_the_known_rows() {
    let leagues = reference_leagues();
    assert_eq!(leagues.len(), 3);
    assert_eq!(leagues[0].league_code, "NBA");
    assert_eq!(leagues[1].league_id, 2);

    let seasons = reference_seasons(2026);
    assert_eq!(seasons.len(), 3 + (2026 - 1948) + 10);
    assert_eq!(seasons[0].season_id, 21946);
    assert_eq!(seasons[2].season_id, 21948);
    assert_eq!(seasons[3].season_id, 11949);
    let last_modern = &seasons[3 + (2026 - 1949) as usize];
    assert_eq!(last_modern.season_id, 12026);
    let last = seasons.last().unwrap();
    assert_eq!(last.season_id, 31976);
}

#[test]
fn team_history_rows_resolve_or_skip() {
    let r = build_team_history_row(
        10,
        "Boston".to_string(),
        "Celtics".to_string(),
        "BOS".to_string(),
        1946,
        None,
        None,
        1,
        2026,
    )
        .unwrap();
    assert_eq!(r.0.effective_start, "1946-01-01");
    assert_eq!(r.0.effective_end, None);
    assert!(r.0.is_active);
    assert_eq!(r.1.league_id, 1);
    assert_eq!(r.2.season_end, 2026);

    let gone = build_team_history_row(
        11,
        "St. Louis".to_string(),
        "Bombers".to_string(),
        "SLB".to_string(),
        1946,
        Some(1950),
        Some("BAA".to_string()),
        2,
        2026,
    )
        .unwrap();
    assert_eq!(gone.0.effective_end, Some("1950-12-31".to_string()));
    assert!(!gone.0.is_active);
    assert_eq!(gone.1.league_id, 2);

    let unknown = build_team_history_row(
        12,
        "Nowhere".to_string(),
        "Ghosts".to_string(),
        "NOW".to_string(),
        1950,
        None,
        Some("XFL".to_string()),
        3,
        2026,
    );
    assert!(unknown.is_none());
}

#[test]
fn players_join_their_name_parts() {
    let p = build_player(5, "LeBron".to_string(), "James".to_string(), None, 2004, 2026);
    assert_eq!(p.display_name, Some("LeBron James".to_string()));
    assert_eq!(p.from_year, Some(2004));
    let anon = build_player(6, "".to_string(), "".to_string(), None, 0, 0);
    assert_eq!(anon.display_name, None);
    assert_eq!(anon.from_year, None);
    assert_eq!(anon.to_year, None);
}

#[test]
fn games_resolve_league_season_and_date() {
    let spans = vec![TeamHistorySpan {
        team_id: 42,
        league_id: 2,
        season_start: 1946,
        season_end: 1948,
    }];
    let g = build_game(
        "0024600001".to_string(),
        "1947-03-01 19:00:00".to_string(),
        42,
        43,
        Some(80),
        Some(71),
        None,
        None,
        None,
        &spans,
    );
    assert_eq!(g.game_date, "1947-03-01");
    assert_eq!(g.league_id, 2);
    assert_eq!(g.season_id, 21947);
    assert_eq!(g.season_type, "Regular");
    // December games belong to the following season year, and a team
    // without a covering span falls back by era
    let h = build_game(
        "0022300500".to_string(),
        "2023-12-25 12:00:00".to_string(),
        99,
        100,
        None,
        None,
        Some("Playoff".to_string()),
        Some(18000),
        Some(7),
        &spans,
    );
    assert_eq!(h.league_id, 1);
    assert_eq!(h.season_id, 12024);
    assert_eq!(h.season_type, "Playoff");
}

#[test]
fn award_type_composes_uppercased() {
    assert_eq!(end_of_season_award_type("All-nba", "1st"), "ALL-NBA_1ST");
}

#[test]
fn missing_keys_report_once() {
    let mut log = MissingKeys::new();
    assert!(log.first_sighting("Boston|Celtics"));
    assert!(!log.first_sighting("Boston|Celtics"));
    assert!(log.first_sighting("LA|Lakers"));
    assert!(!log.first_sighting("LA|Lakers"));
}

#[test]
fn coaches_deduplicate_keeping_first() {
    let coaches = vec![
        Coach { coach_id: "a".to_string(), nba_api_coach_id: None, display_name: "A One".to_string() },
        Coach { coach_id: "b".to_string(), nba_api_coach_id: None, display_name: "B".to_string() },
        Coach { coach_id: "a".to_string(), nba_api_coach_id: Some(3), display_name: "A Two".to_string() },
    ];
    let unique = dedupe_coaches(coaches);
    assert_eq!(unique.len(), 2);
    assert_eq!(unique[0].display_name, "A One");
}

#[test]
fn optional_counts_render_with_a_dash() {
    assert_eq!(format_optional_i32(Some(-3)), "-3");
    assert_eq!(format_optional_i32(Some(12)), "12");
    assert_eq!(format_optional_i32(None), "-");
}

#[test]
fn team_labels_join_city_and_nickname() {
    assert_eq!(format_team_label("Boston", "Celtics"), "Boston Celtics");
}

fn history_row(id: i32, start: &str, city: &str, nick: &str, abbrev: Option<&str>) -> TeamHistoryRow {
    TeamHistoryRow {
        team_history_id: id,
        team_id: id as i64,
        effective_start: start.to_string(),
        effective_end: None,
        city: city.to_string(),
        nickname: nick.to_string(),
        abbreviation: abbrev.map(|a| a.to_string()),
        is_active: true,
    }
}

#[test]
fn team_lookup_keeps_the_newest_row_per_abbreviation() {
    let rows = vec![
        history_row(1, "1946-01-01", "Minneapolis", "Lakers", Some("LAL")),
        history_row(2, "1960-01-01", "Los Angeles", "Lakers", Some("LAL")),
        history_row(3, "1946-01-01", "Boston", "Celtics", Some("BOS")),
        history_row(4, "1950-01-01", "Unmarked", "Ghosts", None),
    ];
    let lookup = build_team_lookup(&rows);
    assert_eq!(lookup.len(), 2);
    let lal = lookup.iter().find(|(a, _)| a == "LAL").unwrap();
    assert_eq!(lal.1, "Los Angeles Lakers");
    let bos = lookup.iter().find(|(a, _)| a == "BOS").unwrap();
    assert_eq!(bos.1, "Boston Celtics");
}

#[test]
fn glossary_lookup_ignores_case() {
    let d = stat_definition("pts").unwrap();
    assert_eq!(d.abbr, "PTS");
    assert_eq!(d.label, "Points");
    let n = stat_definition("netrtg").unwrap();
    assert_eq!(n.label, "Net Rating");
    assert!(stat_definition("zzz").is_none());
}

#[test]
fn record_types_round_through_construction() {
    let arena = nba_hub::schema::Arena {
        arena_id: 1,
        arena_name: "Garden".to_string(),
        city: Some("Boston".to_string()),
    };
    assert_eq!(arena.city.as_deref(), Some("Boston"));
    let tx = nba_hub::schema::Transaction {
        transaction_id: "t1".to_string(),
        season_year: 2021,
        team_abbrev: None,
        player_bref_id: Some("jamesle01".to_string()),
        details: "signed".to_string(),
    };
    assert_eq!(tx.season_year, 2021);
    let nav = nba_hub::glossary::NavItem { label: "Teams", href: "/teams" };
    assert_eq!(nav.href, "/teams");
    let entry = nba_hub::models::PlayerDirectoryEntry {
        player_bref_id: "jamesle01".to_string(),
        player_name: "LeBron James".to_string(),
        first_season: 2004,
        last_season: 2026,
        seasons_count: 23,
        teams_count: 3,
    };
    assert_eq!(entry.seasons_count, 23);
}

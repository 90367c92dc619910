use nba_hub::identity::{
    build_award_key, build_teams_from_history, league_id_from_code, normalize_date, normalize_name,
    normalize_team_city, parse_rank, resolve_league_id, season_id_for_league_year,
    season_year_from_date, team_key,
};
use nba_hub::schema::{TeamHistorySpan, TeamMapEntry};

#[test]
fn award_key_blank_id_falls_back_to_name() {
    // a blank id is treated as absent, and runs of whitespace in the
    // name collapse to single spaces
    let key = build_award_key("MVP", 2021, Some("   "), Some("LeBron   James"));
    assert_eq!(key, Some("MVP|2021|LeBron James".to_string()));
}

#[test]
fn award_key_prefers_trimmed_id() {
    let key = build_award_key("MVP", 2021, Some(" jamesle01 "), Some("LeBron James"));
    assert_eq!(key, Some("MVP|2021|jamesle01".to_string()));
}

#[test]
fn award_key_without_identifier_fails() {
    assert_eq!(build_award_key("MVP", 2021, Some("  "), Some("   ")), None);
    assert_eq!(build_award_key("MVP", 2021, None, None), None);
}

#[test]
fn award_key_same_inputs_same_key() {
    let a = build_award_key("ROY", 1999, None, Some("Vince  Carter"));
    let b = build_award_key("ROY", 1999, None, Some("Vince  Carter"));
    assert_eq!(a, b);
    assert_eq!(a, Some("ROY|1999|Vince Carter".to_string()));
}

#[test]
fn normalize_name_collapses_whitespace() {
    assert_eq!(normalize_name("  LeBron \t James "), "LeBron James");
    assert_eq!(normalize_name("one"), "one");
    assert_eq!(normalize_name("   "), "");
}

#[test]
fn normalization_treats_unicode_whitespace() {
    // a no-break space between name parts collapses like an ordinary one
    assert_eq!(normalize_name("LeBron\u{a0}James"), "LeBron James");
    assert_eq!(normalize_name("\u{2003}LeBron\u{a0}\u{2009}James\u{3000}"), "LeBron James");
    // a blank id made of unicode whitespace is still absent
    let key = build_award_key("MVP", 2021, Some("\u{a0}\u{2002}"), Some("LeBron James"));
    assert_eq!(key, Some("MVP|2021|LeBron James".to_string()));
}

#[test]
fn team_key_normalizes_city() {
    assert_eq!(team_key("LA", "Lakers"), "Los Angeles|Lakers");
    assert_eq!(team_key(" LA ", " Lakers "), "Los Angeles|Lakers");
    assert_eq!(team_key("Boston", "Celtics"), "Boston|Celtics");
}

#[test]
fn city_normalization_only_rewrites_la() {
    assert_eq!(normalize_team_city(" LA "), "Los Angeles");
    assert_eq!(normalize_team_city("LAX"), "LAX");
}

#[test]
fn league_codes_match_case_insensitively() {
    assert_eq!(league_id_from_code("nba"), Some(1));
    assert_eq!(league_id_from_code("BAA"), Some(2));
    assert_eq!(league_id_from_code("Aba"), Some(3));
    assert_eq!(league_id_from_code("XYZ"), None);
}

#[test]
fn date_part_before_first_space() {
    assert_eq!(normalize_date("2023-05-12 19:30:00"), "2023-05-12");
    assert_eq!(normalize_date("2023-05-12"), "2023-05-12");
}

#[test]
fn season_year_splits_at_july() {
    assert_eq!(season_year_from_date("2023-05-12"), 2023);
    assert_eq!(season_year_from_date("2023-07-01"), 2024);
    assert_eq!(season_year_from_date("2023-12-25"), 2024);
    // a bare year has no month part
    assert_eq!(season_year_from_date("1999"), 1999);
    // unreadable pieces fall back to defaults
    assert_eq!(season_year_from_date("ab-cd"), 0);
}

#[test]
fn season_id_encodes_league_and_year() {
    assert_eq!(season_id_for_league_year(2, 1947), 21947);
    assert_eq!(season_id_for_league_year(1, 2026), 12026);
}

#[test]
fn league_resolution_uses_spans_then_fallback() {
    let spans = vec![
        TeamHistorySpan { team_id: 7, league_id: 2, season_start: 1946, season_end: 1948 },
        TeamHistorySpan { team_id: 7, league_id: 1, season_start: 1949, season_end: 2026 },
    ];
    assert_eq!(resolve_league_id(7, 1947, &spans), 2);
    assert_eq!(resolve_league_id(7, 1950, &spans), 1);
    // a team with no stored spans falls back by era
    let empty: Vec<TeamHistorySpan> = Vec::new();
    assert_eq!(resolve_league_id(9, 1945, &empty), 2);
    assert_eq!(resolve_league_id(9, 2000, &empty), 1);
}

#[test]
fn rank_parses_digits_only() {
    assert_eq!(parse_rank("T-3".to_string()), Some(3));
    assert_eq!(parse_rank("1st".to_string()), Some(1));
    assert_eq!(parse_rank("abc".to_string()), None);
    assert_eq!(parse_rank("99999999999".to_string()), None);
}

#[test]
fn teams_deduplicate_by_id_first_wins() {
    let entries = vec![
        TeamMapEntry { team_id: 1, league_id: 1, abbreviation: "BOS".to_string() },
        TeamMapEntry { team_id: 2, league_id: 1, abbreviation: "LAL".to_string() },
        TeamMapEntry { team_id: 1, league_id: 2, abbreviation: "BOS2".to_string() },
    ];
    let teams = build_teams_from_history(&entries);
    assert_eq!(teams.len(), 2);
    assert_eq!(teams[0].team_id, 1);
    assert_eq!(teams[0].franchise_code, Some("BOS".to_string()));
    assert_eq!(teams[0].nba_api_team_id, Some(1));
    assert_eq!(teams[1].team_id, 2);
}

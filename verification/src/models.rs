//! Plain view-model rows served to the presentation layer.
//!
//! Rows whose fields are decimal fractions stay with the I/O shell.

use vstd::prelude::*;

verus! {

#[derive(Debug, Clone)]
pub struct PlayerDirectoryEntry {
    pub player_bref_id: String,
    pub player_name: String,
    pub first_season: i32,
    pub last_season: i32,
    pub seasons_count: usize,
    pub teams_count: usize,
}

#[derive(Debug, Clone)]
pub struct PlayerProfileHeader {
    pub player_bref_id: String,
    pub player_name: String,
    pub first_season: Option<i32>,
    pub last_season: Option<i32>,
    pub teams: Vec<String>,
}

#[derive(Debug, Clone)]
pub struct TeamHistoryRow {
    pub team_history_id: i32,
    pub team_id: i64,
    pub effective_start: String,
    pub effective_end: Option<String>,
    pub city: String,
    pub nickname: String,
    pub abbreviation: Option<String>,
    pub is_active: bool,
}

#[derive(Debug, Clone)]
pub struct StandingRow {
    pub season_year: i32,
    pub team_abbrev: String,
    pub wins: i32,
    pub losses: i32,
    pub playoffs: bool,
}

#[derive(Debug, Clone)]
pub struct SeasonRow {
    pub season_id: i32,
    pub league_id: i32,
    pub season_year: i32,
    pub start_date: Option<String>,
    pub end_date: Option<String>,
}

#[derive(Debug, Clone)]
pub struct DraftRow {
    pub season_year: i32,
    pub pick_overall: i32,
    pub round_number: Option<i32>,
    pub pick_in_round: Option<i32>,
    pub team_abbrev: Option<String>,
    pub player_bref_id: Option<String>,
    pub player_name: Option<String>,
    pub college: Option<String>,
}

#[derive(Debug, Clone)]
pub struct TransactionRow {
    pub transaction_id: String,
    pub season_year: i32,
    pub team_abbrev: Option<String>,
    pub player_bref_id: Option<String>,
    pub details: String,
}

} // verus!

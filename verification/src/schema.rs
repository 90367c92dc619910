//! The canonical record types of the load pipeline.
//!
//! These are plain data carriers; the I/O shell serializes its own mirror
//! copies of them. Statistics that the sources only report as decimal
//! fractions are out of scope here and stay with the shell.

use vstd::prelude::*;

verus! {

#[derive(Debug, Clone)]
pub struct League {
    pub league_id: i32,
    pub league_code: String,
    pub league_name: String,
}

#[derive(Debug, Clone)]
pub struct Season {
    pub season_id: i32,
    pub league_id: i32,
    pub season_year: i32,
    pub start_date: Option<String>,
    pub end_date: Option<String>,
}

#[derive(Debug, Clone)]
pub struct Arena {
    pub arena_id: i32,
    pub arena_name: String,
    pub city: Option<String>,
}

#[derive(Debug, Clone)]
pub struct Team {
    pub team_id: i64,
    pub league_id: i32,
    pub franchise_code: Option<String>,
    pub nba_api_team_id: Option<i64>,
}

#[derive(Debug, Clone)]
pub struct TeamHistory {
    pub team_history_id: i32,
    pub team_id: i64,
    pub effective_start: String,
    pub effective_end: Option<String>,
    pub city: String,
    pub nickname: String,
    pub abbreviation: Option<String>,
    pub is_active: bool,
}

#[derive(Debug, Clone)]
pub struct Player {
    pub player_id: i64,
    pub nba_api_person_id: Option<i64>,
    pub first_name: Option<String>,
    pub last_name: Option<String>,
    pub display_name: Option<String>,
    pub birth_date: Option<String>,
    pub from_year: Option<i32>,
    pub to_year: Option<i32>,
}

#[derive(Debug, Clone)]
pub struct Coach {
    pub coach_id: String,
    pub nba_api_coach_id: Option<i64>,
    pub display_name: String,
}

#[derive(Debug, Clone)]
pub struct Referee {
    pub referee_id: String,
    pub nba_api_ref_id: Option<i64>,
    pub display_name: String,
}

#[derive(Debug, Clone)]
pub struct Game {
    pub game_id: String,
    pub league_id: i32,
    pub season_id: i32,
    pub season_type: String,
    pub game_date: String,
    pub home_team_id: i64,
    pub away_team_id: i64,
    pub home_points: Option<i32>,
    pub away_points: Option<i32>,
    pub attendance: Option<i32>,
    pub arena_id: Option<i32>,
}

#[derive(Debug, Clone)]
pub struct Draft {
    pub season_year: i32,
    pub pick_overall: i32,
    pub round_number: Option<i32>,
    pub pick_in_round: Option<i32>,
    pub team_abbrev: Option<String>,
    pub player_bref_id: Option<String>,
    pub player_name: Option<String>,
    pub college: Option<String>,
}

#[derive(Debug, Clone)]
pub struct Standing {
    pub season_year: i32,
    pub team_abbrev: String,
    pub wins: i32,
    pub losses: i32,
    pub playoffs: bool,
}

#[derive(Debug, Clone)]
pub struct Transaction {
    pub transaction_id: String,
    pub season_year: i32,
    pub team_abbrev: Option<String>,
    pub player_bref_id: Option<String>,
    pub details: String,
}

/// One run of a team in a league, inclusive on both season years.
#[derive(Debug, Clone)]
pub struct TeamHistorySpan {
    pub team_id: i64,
    pub league_id: i32,
    pub season_start: i32,
    pub season_end: i32,
}

/// What the team-history table knows about one team key.
#[derive(Debug, Clone)]
pub struct TeamMapEntry {
    pub team_id: i64,
    pub league_id: i32,
    pub abbreviation: String,
}

/// Referees and coaches credited on one box score page.
#[derive(Debug, Clone)]
pub struct BoxscoreMeta {
    pub referees: Vec<Referee>,
    pub coaches: Vec<Coach>,
}

} // verus!

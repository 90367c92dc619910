//! The pure row-building half of the CSV seeding pipeline: reference data,
//! per-row record construction, and once-per-key reporting. The I/O shell
//! reads the CSV files and uploads what these functions build.

use vstd::prelude::*;
use vstd::assert_by_contradiction;
use crate::identity::{
    date_part, league_id_of_code, resolved_league, season_year_of,
};
use crate::schema::{
    Coach, Game, League, Player, Referee, Season, TeamHistory, TeamHistorySpan, TeamMapEntry,
};
use crate::text::{chars_to_string, i32_to_chars, int_str, str_to_chars, trim, trim_chars, upper};

verus! {

/// The fixed league table.
pub fn reference_leagues() -> (r: Vec<League>)
    ensures
        r@.len() == 3,
        r@[0].league_id == 1 && r@[0].league_code@ == "NBA"@ && r@[0].league_name@
            == "National Basketball Association"@,
        r@[1].league_id == 2 && r@[1].league_code@ == "BAA"@ && r@[1].league_name@
            == "Basketball Association of America"@,
        r@[2].league_id == 3 && r@[2].league_code@ == "ABA"@ && r@[2].league_name@
            == "American Basketball Association"@,
{
    let mut out: Vec<League> = Vec::new();
    out.push(
        League {
            league_id: 1,
            league_code: crate::text::chars_to_string(&str_to_chars("NBA")),
            league_name: crate::text::chars_to_string(
                &str_to_chars("National Basketball Association"),
            ),
        },
    );
    out.push(
        League {
            league_id: 2,
            league_code: crate::text::chars_to_string(&str_to_chars("BAA")),
            league_name: crate::text::chars_to_string(
                &str_to_chars("Basketball Association of America"),
            ),
        },
    );
    out.push(
        League {
            league_id: 3,
            league_code: crate::text::chars_to_string(&str_to_chars("ABA")),
            league_name: crate::text::chars_to_string(
                &str_to_chars("American Basketball Association"),
            ),
        },
    );
    out
}

/// One season row as the reference table carries it.
pub open spec fn season_row(league_id: int, year: int) -> Season {
    Season {
        season_id: (league_id * 10000 + year) as i32,
        league_id: league_id as i32,
        season_year: year as i32,
        start_date: None,
        end_date: None,
    }
}

/// The seasons of the reference table: the legacy league's three years,
/// the modern league from its first season through the current year, and
/// the rival league's ten seasons.
pub open spec fn reference_seasons_spec(current_year: int) -> Seq<Season> {
    Seq::new(3, |i: int| season_row(2, 1946 + i)) + Seq::new(
        if current_year >= 1949 {
            (current_year - 1948) as nat
        } else {
            0
        },
        |i: int| season_row(1, 1949 + i),
    ) + Seq::new(10, |i: int| season_row(3, 1967 + i))
}

#[verifier::loop_isolation(false)]
pub fn reference_seasons(current_year: i32) -> (r: Vec<Season>)
    requires
        current_year <= 0x7fff_ffff - 10000,
    ensures
        r@ == reference_seasons_spec(current_year as int),
{
    let ghost part1 = Seq::new(3, |i: int| season_row(2, 1946 + i));
    let ghost part2 = Seq::new(
        if current_year >= 1949 {
            (current_year - 1948) as nat
        } else {
            0
        },
        |i: int| season_row(1, 1949 + i),
    );
    let ghost part3 = Seq::new(10, |i: int| season_row(3, 1967 + i));
    let mut out: Vec<Season> = Vec::new();
    let mut year: i32 = 1946;
    while year <= 1948
        invariant
            1946 <= year <= 1949,
            out@ =~= part1.take(year - 1946),
        decreases 1949 - year,
    {
        out.push(
            Season {
                season_id: 20000 + year,
                league_id: 2,
                season_year: year,
                start_date: None,
                end_date: None,
            },
        );
        assert(out@ =~= part1.take(year + 1 - 1946));
        year = year + 1;
    }
    assert(out@ =~= part1);
    let mut year: i32 = 1949;
    while year <= current_year
        invariant
            1949 <= year,
            year <= if current_year >= 1949 {
                current_year + 1
            } else {
                1949
            },
            out@ =~= part1 + part2.take(year - 1949),
        decreases current_year - year + 1,
    {
        out.push(
            Season {
                season_id: 10000 + year,
                league_id: 1,
                season_year: year,
                start_date: None,
                end_date: None,
            },
        );
        assert(out@ =~= part1 + part2.take(year + 1 - 1949));
        year = year + 1;
    }
    proof {
        if current_year >= 1949 {
            assert(year == current_year + 1);
            assert(year - 1949 == part2.len());
        } else {
            assert(year == 1949);
            assert(part2.len() == 0);
        }
        assert(part2.take(part2.len() as int) =~= part2);
    }
    assert(out@ =~= part1 + part2);
    let mut year: i32 = 1967;
    while year <= 1976
        invariant
            1967 <= year <= 1977,
            out@ =~= (part1 + part2) + part3.take(year - 1967),
        decreases 1977 - year,
    {
        out.push(
            Season {
                season_id: 30000 + year,
                league_id: 3,
                season_year: year,
                start_date: None,
                end_date: None,
            },
        );
        assert(out@ =~= (part1 + part2) + part3.take(year + 1 - 1967));
        year = year + 1;
    }
    assert(out@ =~= (part1 + part2) + part3);
    out
}

/// `{year}-01-01`.
pub open spec fn start_of_year(year: int) -> Seq<char> {
    int_str(year) + "-01-01"@
}

/// `{year}-12-31`.
pub open spec fn end_of_year(year: int) -> Seq<char> {
    int_str(year) + "-12-31"@
}

fn year_with_suffix(year: i32, suffix: &str) -> (r: String)
    ensures
        r@ == int_str(year as int) + suffix@,
{
    let mut out = i32_to_chars(year);
    let mut tail = str_to_chars(suffix);
    out.append(&mut tail);
    chars_to_string(&out)
}

/// One team-history CSV row resolved into the three records the pipeline
/// keeps: the history row itself, the join-map entry, and the league span.
/// A row naming an unknown league resolves to nothing and is skipped.
pub fn build_team_history_row(
    team_id: i64,
    team_city: String,
    team_name: String,
    team_abbrev: String,
    season_founded: i32,
    season_active_till: Option<i32>,
    league: Option<String>,
    team_history_id: i32,
    current_year: i32,
) -> (r: Option<(TeamHistory, TeamMapEntry, TeamHistorySpan)>)
    ensures
        ({
            let code = match league {
                Some(l) => l@,
                None => "NBA"@,
            };
            match league_id_of_code(code) {
                None => r is None,
                Some(league_id) => r matches Some(t) && {
                    &&& t.0.team_history_id == team_history_id
                    &&& t.0.team_id == team_id
                    &&& t.0.effective_start@ == start_of_year(season_founded as int)
                    &&& (match season_active_till {
                        Some(y) => t.0.effective_end matches Some(e) && e@ == end_of_year(y as int),
                        None => t.0.effective_end is None,
                    })
                    &&& t.0.city == team_city
                    &&& t.0.nickname == team_name
                    &&& t.0.abbreviation matches Some(a) && a == team_abbrev
                    &&& t.0.is_active == (match season_active_till {
                        Some(y) => y >= current_year,
                        None => true,
                    })
                    &&& t.1 == (TeamMapEntry { team_id, league_id, abbreviation: team_abbrev })
                    &&& t.2 == (TeamHistorySpan {
                        team_id,
                        league_id,
                        season_start: season_founded,
                        season_end: match season_active_till {
                            Some(y) => y,
                            None => current_year,
                        },
                    })
                },
            }
        }),
{
    let league_id = match &league {
        Some(l) => crate::identity::league_id_from_code(l.as_str()),
        None => crate::identity::league_id_from_code("NBA"),
    };
    let league_id = match league_id {
        Some(id) => id,
        None => {
            return None;
        },
    };
    let season_end = match season_active_till {
        Some(y) => y,
        None => current_year,
    };
    let is_active = match season_active_till {
        Some(y) => y >= current_year,
        None => true,
    };
    let history = TeamHistory {
        team_history_id,
        team_id,
        effective_start: year_with_suffix(season_founded, "-01-01"),
        effective_end: match season_active_till {
            Some(y) => Some(year_with_suffix(y, "-12-31")),
            None => None,
        },
        city: team_city,
        nickname: team_name,
        abbreviation: Some(team_abbrev.clone()),
        is_active,
    };
    let entry = TeamMapEntry { team_id, league_id, abbreviation: team_abbrev };
    let span = TeamHistorySpan {
        team_id,
        league_id,
        season_start: season_founded,
        season_end,
    };
    Some((history, entry, span))
}

/// One player CSV row resolved into a player record: the display name is
/// the two name parts joined and trimmed, and zero career years read as
/// unknown.
pub fn build_player(
    person_id: i64,
    first_name: String,
    last_name: String,
    birthdate: Option<String>,
    from_year: i32,
    to_year: i32,
) -> (r: Player)
    ensures
        r.player_id == person_id,
        r.nba_api_person_id == Some(person_id),
        r.first_name matches Some(f) && f == first_name,
        r.last_name matches Some(l) && l == last_name,
        ({
            let display = trim(first_name@ + " "@ + last_name@);
            if display.len() == 0 {
                r.display_name is None
            } else {
                r.display_name matches Some(d) && d@ == display
            }
        }),
        r.birth_date == birthdate,
        r.from_year == (if from_year == 0 {
            None::<i32>
        } else {
            Some(from_year)
        }),
        r.to_year == (if to_year == 0 {
            None::<i32>
        } else {
            Some(to_year)
        }),
{
    let mut joined = str_to_chars(first_name.as_str());
    let mut sep = str_to_chars(" ");
    joined.append(&mut sep);
    let mut last = str_to_chars(last_name.as_str());
    joined.append(&mut last);
    assert(joined@ =~= first_name@ + " "@ + last_name@);
    let display = trim_chars(&joined);
    Player {
        player_id: person_id,
        nba_api_person_id: Some(person_id),
        first_name: Some(first_name),
        last_name: Some(last_name),
        display_name: if display.len() == 0 {
            None
        } else {
            Some(chars_to_string(&display))
        },
        birth_date: birthdate,
        from_year: if from_year == 0 {
            None
        } else {
            Some(from_year)
        },
        to_year: if to_year == 0 {
            None
        } else {
            Some(to_year)
        },
    }
}

/// One game CSV row resolved against the team history: the date is cut
/// out of the timestamp, the season year inferred from it, the league
/// resolved through the spans with the era fallback, and the season id
/// derived from both.
pub fn build_game(
    game_id: String,
    game_date_time: String,
    home_team_id: i64,
    away_team_id: i64,
    home_score: Option<i32>,
    away_score: Option<i32>,
    game_type: Option<String>,
    attendance: Option<i32>,
    arena_id: Option<i32>,
    spans: &Vec<TeamHistorySpan>,
) -> (r: Game)
    requires
        i32::MIN <= season_year_of(date_part(game_date_time@)) <= i32::MAX,
        i32::MIN <= resolved_league(spans@, home_team_id, season_year_of(date_part(game_date_time@)))
            * 10000 + season_year_of(date_part(game_date_time@)) <= i32::MAX,
    ensures
        r.game_id == game_id,
        r.game_date@ == date_part(game_date_time@),
        r.league_id as int == resolved_league(
            spans@,
            home_team_id,
            season_year_of(date_part(game_date_time@)),
        ),
        r.season_id as int == r.league_id * 10000 + season_year_of(date_part(game_date_time@)),
        ({
            match game_type {
                Some(t) => r.season_type == t,
                None => r.season_type@ == "Regular"@,
            }
        }),
        r.home_team_id == home_team_id,
        r.away_team_id == away_team_id,
        r.home_points == home_score,
        r.away_points == away_score,
        r.attendance == attendance,
        r.arena_id == arena_id,
{
    let game_date = crate::identity::normalize_date(game_date_time.as_str());
    let season_year = crate::identity::season_year_from_date(game_date.as_str());
    let league_id = crate::identity::resolve_league_id(home_team_id, season_year, spans);
    let season_id = crate::identity::season_id_for_league_year(league_id, season_year);
    Game {
        game_id,
        league_id,
        season_id,
        season_type: match game_type {
            Some(t) => t,
            None => chars_to_string(&str_to_chars("Regular")),
        },
        game_date,
        home_team_id,
        away_team_id,
        home_points: home_score,
        away_points: away_score,
        attendance,
        arena_id,
    }
}

/// The award type of an end-of-season team selection: the award family
/// and the team ordinal, uppercased and joined by an underscore.
pub fn end_of_season_award_type(award_type: &str, team_number: &str) -> (r: String)
    ensures
        r@ == upper(award_type@) + "_"@ + upper(team_number@),
{
    let mut out = crate::text::upper_chars(&str_to_chars(award_type));
    out.push('_');
    let mut num = crate::text::upper_chars(&str_to_chars(team_number));
    out.append(&mut num);
    proof {
        reveal_strlit("_");
    }
    assert(out@ =~= upper(award_type@) + "_"@ + upper(team_number@));
    chars_to_string(&out)
}

/// Tracks join keys that failed to resolve, so each distinct key is
/// reported once rather than once per row.
pub struct MissingKeys {
    seen: Vec<String>,
}

impl MissingKeys {
    /// The distinct keys noted so far.
    pub closed spec fn keys(&self) -> Seq<Seq<char>> {
        self.seen@.map_values(|s: String| s@)
    }

    pub fn new() -> (r: MissingKeys)
        ensures
            r.keys() == Seq::<Seq<char>>::empty(),
    {
        let r = MissingKeys { seen: Vec::new() };
        proof {
            assert(r.keys() =~= Seq::<Seq<char>>::empty());
        }
        r
    }

    /// Notes a missing key; true exactly on its first sighting, which is
    /// when the caller should report it.
    pub fn first_sighting(&mut self, key: &str) -> (r: bool)
        ensures
            r == !old(self).keys().contains(key@),
            r ==> final(self).keys() == old(self).keys().push(key@),
            !r ==> final(self).keys() == old(self).keys(),
    {
        let kv = str_to_chars(key);
        let mut i: usize = 0;
        while i < self.seen.len()
            invariant
                0 <= i <= self.seen@.len(),
                kv@ == key@,
                forall|j: int| 0 <= j < i ==> self.keys()[j] != key@,
            decreases self.seen@.len() - i,
        {
            if crate::text::chars_eq(&str_to_chars(self.seen[i].as_str()), &kv) {
                assert(self.keys()[i as int] == key@);
                return false;
            }
            i = i + 1;
        }
        proof {
            if self.keys().contains(key@) {
                let k = choose|k: int| 0 <= k < self.keys().len() && self.keys()[k] == key@;
                assert(self.keys()[k] != key@);
            }
        }
        let ghost old_keys = self.keys();
        self.seen.push(chars_to_string(&kv));
        proof {
            assert(self.keys() =~= old_keys.push(key@));
        }
        true
    }
}

/// Coaches deduplicated by id, first occurrence kept.
pub open spec fn dedup_coaches_spec(items: Seq<Coach>) -> Seq<Coach>
    decreases items.len(),
{
    if items.len() == 0 {
        Seq::<Coach>::empty()
    } else {
        let prefix = dedup_coaches_spec(items.drop_last());
        if exists|j: int|
            0 <= j < items.len() - 1 && (#[trigger] items[j]).coach_id@ == items.last().coach_id@ {
            prefix
        } else {
            prefix.push(items.last())
        }
    }
}

#[verifier::loop_isolation(false)]
pub fn dedupe_coaches(items: Vec<Coach>) -> (r: Vec<Coach>)
    ensures
        r@ == dedup_coaches_spec(items@),
{
    let mut out: Vec<Coach> = Vec::new();
    let mut i: usize = 0;
    while i < items.len()
        invariant
            0 <= i <= items@.len(),
            out@ == dedup_coaches_spec(items@.take(i as int)),
        decreases items@.len() - i,
    {
        let mut seen = false;
        let mut j: usize = 0;
        while j < i
            invariant
                0 <= j <= i <= items@.len(),
                seen == exists|k: int|
                    0 <= k < j && (#[trigger] items@[k]).coach_id@ == items@[i as int].coach_id@,
            decreases i - j,
        {
            if items[j].coach_id.eq(&items[i].coach_id) {
                seen = true;
            }
            j = j + 1;
        }
        proof {
            assert(items@.take(i + 1).drop_last() =~= items@.take(i as int));
            assert(items@.take(i + 1).last() == items@[i as int]);
            assert(forall|k: int| 0 <= k < i ==> #[trigger] items@.take(i + 1)[k] == items@[k]);
        }
        if !seen {
            let c = &items[i];
            out.push(
                Coach {
                    coach_id: c.coach_id.clone(),
                    nba_api_coach_id: c.nba_api_coach_id,
                    display_name: c.display_name.clone(),
                },
            );
            proof {
                let t = items@.take(i + 1);
                assert_by_contradiction!(
                    !(exists|k: int| 0 <= k < t.len() - 1 && (#[trigger] t[k]).coach_id@ == t.last().coach_id@),
                    {
                        let k = choose|k: int|
                            0 <= k < t.len() - 1 && (#[trigger] t[k]).coach_id@ == t.last().coach_id@;
                        assert(items@[k].coach_id@ == items@[i as int].coach_id@);
                    }
                );
                assert(out@.last().coach_id == items@[i as int].coach_id);
                assert(out@.last().nba_api_coach_id == items@[i as int].nba_api_coach_id);
                assert(out@.last().display_name == items@[i as int].display_name);
                assert(out@ =~= dedup_coaches_spec(t));
            }
        } else {
            proof {
                let t = items@.take(i + 1);
                let k = choose|k: int|
                    0 <= k < i && (#[trigger] items@[k]).coach_id@ == items@[i as int].coach_id@;
                assert((#[trigger] t[k]).coach_id@ == t.last().coach_id@);
                assert(dedup_coaches_spec(t) == dedup_coaches_spec(t.drop_last()));
            }
        }
        i = i + 1;
    }
    assert(items@.take(items@.len() as int) =~= items@);
    out
}

/// Referees deduplicated by id, first occurrence kept.
pub open spec fn dedup_referees_spec(items: Seq<Referee>) -> Seq<Referee>
    decreases items.len(),
{
    if items.len() == 0 {
        Seq::<Referee>::empty()
    } else {
        let prefix = dedup_referees_spec(items.drop_last());
        if exists|j: int|
            0 <= j < items.len() - 1 && (#[trigger] items[j]).referee_id@ == items.last().referee_id@ {
            prefix
        } else {
            prefix.push(items.last())
        }
    }
}

#[verifier::loop_isolation(false)]
pub fn dedupe_referees(items: Vec<Referee>) -> (r: Vec<Referee>)
    ensures
        r@ == dedup_referees_spec(items@),
{
    let mut out: Vec<Referee> = Vec::new();
    let mut i: usize = 0;
    while i < items.len()
        invariant
            0 <= i <= items@.len(),
            out@ == dedup_referees_spec(items@.take(i as int)),
        decreases items@.len() - i,
    {
        let mut seen = false;
        let mut j: usize = 0;
        while j < i
            invariant
                0 <= j <= i <= items@.len(),
                seen == exists|k: int|
                    0 <= k < j && (#[trigger] items@[k]).referee_id@ == items@[i as int].referee_id@,
            decreases i - j,
        {
            if items[j].referee_id.eq(&items[i].referee_id) {
                seen = true;
            }
            j = j + 1;
        }
        proof {
            assert(items@.take(i + 1).drop_last() =~= items@.take(i as int));
            assert(items@.take(i + 1).last() == items@[i as int]);
            assert(forall|k: int| 0 <= k < i ==> #[trigger] items@.take(i + 1)[k] == items@[k]);
        }
        if !seen {
            let c = &items[i];
            out.push(
                Referee {
                    referee_id: c.referee_id.clone(),
                    nba_api_ref_id: c.nba_api_ref_id,
                    display_name: c.display_name.clone(),
                },
            );
            proof {
                let t = items@.take(i + 1);
                assert_by_contradiction!(
                    !(exists|k: int| 0 <= k < t.len() - 1 && (#[trigger] t[k]).referee_id@ == t.last().referee_id@),
                    {
                        let k = choose|k: int|
                            0 <= k < t.len() - 1 && (#[trigger] t[k]).referee_id@ == t.last().referee_id@;
                        assert(items@[k].referee_id@ == items@[i as int].referee_id@);
                    }
                );
                assert(out@.last().referee_id == items@[i as int].referee_id);
                assert(out@.last().nba_api_ref_id == items@[i as int].nba_api_ref_id);
                assert(out@.last().display_name == items@[i as int].display_name);
                assert(out@ =~= dedup_referees_spec(t));
            }
        } else {
            proof {
                let t = items@.take(i + 1);
                let k = choose|k: int|
                    0 <= k < i && (#[trigger] items@[k]).referee_id@ == items@[i as int].referee_id@;
                assert((#[trigger] t[k]).referee_id@ == t.last().referee_id@);
                assert(dedup_referees_spec(t) == dedup_referees_spec(t.drop_last()));
            }
        }
        i = i + 1;
    }
    assert(items@.take(items@.len() as int) =~= items@);
    out
}

} // verus!

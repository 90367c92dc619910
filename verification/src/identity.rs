//! Identity and temporal resolution: canonical keys, season inference, and
//! team/league history lookups. Everything here is pure.

use vstd::prelude::*;
use crate::schema::{Team, TeamHistorySpan, TeamMapEntry};
use vstd::assert_by_contradiction;
use crate::text::{
    all_digits, chars_eq, chars_to_string, digits_val, find_char, find_in, int_str, int_syntax_ok,
    int_value, is_digit, is_ws, i32_to_chars, lower, lower_chars, parse_i32_chars, str_to_chars,
    sub_chars, trim, trim_chars,
};

verus! {

/// One step of whitespace normalization: the accumulator is the output so
/// far plus whether a space is owed before the next word character.
pub open spec fn norm_step(acc: (Seq<char>, bool), c: char) -> (Seq<char>, bool) {
    if is_ws(c) {
        (acc.0, acc.0.len() > 0)
    } else {
        (
            (if acc.1 {
                acc.0.push(' ')
            } else {
                acc.0
            }).push(c),
            false,
        )
    }
}

pub open spec fn norm_fold(s: Seq<char>) -> (Seq<char>, bool)
    decreases s.len(),
{
    if s.len() == 0 {
        (Seq::<char>::empty(), false)
    } else {
        norm_step(norm_fold(s.drop_last()), s.last())
    }
}

/// Runs of whitespace collapsed to single spaces, ends trimmed.
pub open spec fn normalize_ws(s: Seq<char>) -> Seq<char> {
    norm_fold(s).0
}

/// Collapses whitespace runs in a display name to single spaces and trims.
pub fn normalize_name(name: &str) -> (r: String)
    ensures
        r@ == normalize_ws(name@),
{
    let v = str_to_chars(name);
    let mut out: Vec<char> = Vec::new();
    let mut pending = false;
    let mut i: usize = 0;
    while i < v.len()
        invariant
            0 <= i <= v@.len(),
            v@ == name@,
            (out@, pending) == norm_fold(v@.take(i as int)),
        decreases v@.len() - i,
    {
        let c = v[i];
        proof {
            assert(v@.take(i + 1).drop_last() =~= v@.take(i as int));
            assert(v@.take(i + 1).last() == v@[i as int]);
        }
        if crate::text::char_is_ws(c) {
            pending = out.len() > 0;
        } else {
            if pending {
                out.push(' ');
            }
            out.push(c);
            pending = false;
        }
        i = i + 1;
    }
    assert(v@.take(v@.len() as int) =~= v@);
    chars_to_string(&out)
}

/// `type|year|discriminator`.
pub open spec fn key_of(award_type: Seq<char>, season_year: int, disc: Seq<char>) -> Seq<char> {
    award_type + seq!['|'] + int_str(season_year) + seq!['|'] + disc
}

/// The canonical award key: a trimmed external id if one is present,
/// else the whitespace-normalized display name, else nothing.
pub open spec fn award_key(
    award_type: Seq<char>,
    season_year: int,
    id: Option<Seq<char>>,
    name: Option<Seq<char>>,
) -> Option<Seq<char>> {
    if id is Some && trim(id->0).len() > 0 {
        Some(key_of(award_type, season_year, trim(id->0)))
    } else if name is Some && normalize_ws(name->0).len() > 0 {
        Some(key_of(award_type, season_year, normalize_ws(name->0)))
    } else {
        None
    }
}

/// Canonical key construction; `None` means the record has no usable
/// identifier and must be skipped and reported by the caller.
pub fn build_award_key(
    award_type: &str,
    season_year: i32,
    player_bref_id: Option<&str>,
    player_name: Option<&str>,
) -> (r: Option<String>)
    ensures
        match r {
            Some(k) => award_key(
                award_type@,
                season_year as int,
                match player_bref_id {
                    Some(s) => Some(s@),
                    None => None,
                },
                match player_name {
                    Some(s) => Some(s@),
                    None => None,
                },
            ) == Some(k@),
            None => award_key(
                award_type@,
                season_year as int,
                match player_bref_id {
                    Some(s) => Some(s@),
                    None => None,
                },
                match player_name {
                    Some(s) => Some(s@),
                    None => None,
                },
            ) is None,
        },
{
    if let Some(id) = player_bref_id {
        let trimmed = trim_chars(&str_to_chars(id));
        if trimmed.len() > 0 {
            return Some(make_key(award_type, season_year, &trimmed));
        }
    }
    if let Some(name) = player_name {
        let normalized = str_to_chars(&normalize_name(name));
        if normalized.len() > 0 {
            return Some(make_key(award_type, season_year, &normalized));
        }
    }
    None
}

fn make_key(award_type: &str, season_year: i32, disc: &Vec<char>) -> (r: String)
    ensures
        r@ == key_of(award_type@, season_year as int, disc@),
{
    let mut out = str_to_chars(award_type);
    out.push('|');
    let mut year = i32_to_chars(season_year);
    out.append(&mut year);
    out.push('|');
    let mut d = sub_chars(disc, 0, disc.len());
    assert(d@ =~= disc@);
    out.append(&mut d);
    assert(out@ =~= key_of(award_type@, season_year as int, disc@));
    chars_to_string(&out)
}

/// A blank or whitespace-only external id is treated exactly as an absent
/// one: the key falls back to the normalized display name. Together with
/// `award_key` being a function of the views alone, this is the sense in
/// which key construction is pure.
pub proof fn lemma_blank_id_is_absent(
    award_type: Seq<char>,
    season_year: int,
    id: Seq<char>,
    name: Option<Seq<char>>,
)
    requires
        trim(id).len() == 0,
    ensures
        award_key(award_type, season_year, Some(id), name) == award_key(
            award_type,
            season_year,
            None,
            name,
        ),
{
}

/// A handful of metro abbreviations map to their full city name.
pub open spec fn normalized_team_city(city: Seq<char>) -> Seq<char> {
    if trim(city) == "LA"@ {
        "Los Angeles"@
    } else {
        city
    }
}

pub fn normalize_team_city<'a>(city: &'a str) -> (r: &'a str)
    ensures
        r@ == normalized_team_city(city@),
{
    let trimmed = trim_chars(&str_to_chars(city));
    if chars_eq(&trimmed, &str_to_chars("LA")) {
        "Los Angeles"
    } else {
        city
    }
}

/// The join key for loosely structured rows: normalized city and nickname,
/// both trimmed, joined by `|`.
pub open spec fn team_key_of(city: Seq<char>, name: Seq<char>) -> Seq<char> {
    trim(normalized_team_city(city)) + seq!['|'] + trim(name)
}

pub fn team_key(city: &str, name: &str) -> (r: String)
    ensures
        r@ == team_key_of(city@, name@),
{
    let mut out = trim_chars(&str_to_chars(normalize_team_city(city)));
    out.push('|');
    let mut n = trim_chars(&str_to_chars(name));
    out.append(&mut n);
    assert(out@ =~= team_key_of(city@, name@));
    chars_to_string(&out)
}

/// League codes, matched case-insensitively.
pub open spec fn league_id_of_code(code: Seq<char>) -> Option<i32> {
    if lower(code) == "nba"@ {
        Some(1)
    } else if lower(code) == "baa"@ {
        Some(2)
    } else if lower(code) == "aba"@ {
        Some(3)
    } else {
        None
    }
}

pub fn league_id_from_code(code: &str) -> (r: Option<i32>)
    ensures
        r == league_id_of_code(code@),
{
    let lc = lower_chars(&str_to_chars(code));
    if chars_eq(&lc, &str_to_chars("nba")) {
        Some(1)
    } else if chars_eq(&lc, &str_to_chars("baa")) {
        Some(2)
    } else if chars_eq(&lc, &str_to_chars("aba")) {
        Some(3)
    } else {
        None
    }
}

/// The date part of a combined date-time: everything before the first space.
pub open spec fn date_part(s: Seq<char>) -> Seq<char> {
    match find_char(s, ' ') {
        Some(i) => s.take(i),
        None => s,
    }
}

pub fn normalize_date(datetime: &str) -> (r: String)
    ensures
        r@ == date_part(datetime@),
{
    let v = str_to_chars(datetime);
    match find_in(&v, ' ') {
        Some(i) => {
            proof {
                crate::text::lemma_find_char(v@, ' ');
            }
            assert(v@.subrange(0, i as int) =~= v@.take(i as int));
            chars_to_string(&sub_chars(&v, 0, i))
        },
        None => chars_to_string(&v),
    }
}

/// A decimal literal's value if it parses as an `i32`, else the default.
pub open spec fn parse_i32_or(s: Seq<char>, dflt: int) -> int {
    if int_syntax_ok(s) && i32::MIN <= int_value(s) <= i32::MAX {
        int_value(s)
    } else {
        dflt
    }
}

/// The season year a `YYYY-MM-...` date belongs to: the calendar year for
/// months before July, the next year from July on. A date without a month
/// part falls back to reading the whole string as a year.
pub open spec fn season_year_of(s: Seq<char>) -> int {
    match find_char(s, '-') {
        None => parse_i32_or(s, 0),
        Some(i) => {
            let year = parse_i32_or(s.take(i), 0);
            let rest = s.skip(i + 1);
            let month = match find_char(rest, '-') {
                None => parse_i32_or(rest, 1),
                Some(j) => parse_i32_or(rest.take(j), 1),
            };
            if month >= 7 {
                year + 1
            } else {
                year
            }
        },
    }
}

pub fn season_year_from_date(date: &str) -> (r: i32)
    requires
        i32::MIN <= season_year_of(date@) <= i32::MAX,
    ensures
        r as int == season_year_of(date@),
{
    let v = str_to_chars(date);
    match find_in(&v, '-') {
        None => {
            match parse_i32_chars(&v) {
                Some(y) => y,
                None => 0,
            }
        },
        Some(i) => {
            proof {
                crate::text::lemma_find_char(v@, '-');
            }
            let head = sub_chars(&v, 0, i);
            assert(head@ =~= v@.take(i as int));
            let year: i32 = match parse_i32_chars(&head) {
                Some(y) => y,
                None => 0,
            };
            let rest = sub_chars(&v, i + 1, v.len());
            assert(rest@ =~= v@.skip(i + 1));
            let month: i32 = match find_in(&rest, '-') {
                None => {
                    match parse_i32_chars(&rest) {
                        Some(m) => m,
                        None => 1,
                    }
                },
                Some(j) => {
                    proof {
                        crate::text::lemma_find_char(rest@, '-');
                    }
                    let head2 = sub_chars(&rest, 0, j);
                    assert(head2@ =~= rest@.take(j as int));
                    match parse_i32_chars(&head2) {
                        Some(m) => m,
                        None => 1,
                    }
                },
            };
            if month >= 7 {
                year + 1
            } else {
                year
            }
        },
    }
}

/// The season year of a date, refused only when it falls outside the id
/// arithmetic's range; total, so callers can test before using the
/// partial variant above.
pub fn checked_season_year(date: &str) -> (r: Option<i32>)
    ensures
        match r {
            Some(y) => y as int == season_year_of(date@),
            None => !(i32::MIN <= season_year_of(date@) <= i32::MAX),
        },
{
    let v = str_to_chars(date);
    match find_in(&v, '-') {
        None => {
            match parse_i32_chars(&v) {
                Some(y) => Some(y),
                None => Some(0),
            }
        },
        Some(i) => {
            proof {
                crate::text::lemma_find_char(v@, '-');
            }
            let head = sub_chars(&v, 0, i);
            assert(head@ =~= v@.take(i as int));
            let year: i32 = match parse_i32_chars(&head) {
                Some(y) => y,
                None => 0,
            };
            let rest = sub_chars(&v, i + 1, v.len());
            assert(rest@ =~= v@.skip(i + 1));
            let month: i32 = match find_in(&rest, '-') {
                None => {
                    match parse_i32_chars(&rest) {
                        Some(m) => m,
                        None => 1,
                    }
                },
                Some(j) => {
                    proof {
                        crate::text::lemma_find_char(rest@, '-');
                    }
                    let head2 = sub_chars(&rest, 0, j);
                    assert(head2@ =~= rest@.take(j as int));
                    match parse_i32_chars(&head2) {
                        Some(m) => m,
                        None => 1,
                    }
                },
            };
            if month >= 7 {
                year.checked_add(1)
            } else {
                Some(year)
            }
        },
    }
}

/// Season ids stay unique and sortable across leagues.
pub fn season_id_for_league_year(league_id: i32, season_year: i32) -> (r: i32)
    requires
        i32::MIN <= league_id * 10000 + season_year <= i32::MAX,
    ensures
        r as int == league_id * 10000 + season_year,
{
    let wide = (league_id as i64) * 10000 + (season_year as i64);
    wide as i32
}

/// A span resolves a (team, season-year) query when it is that team's and
/// the year falls inside its inclusive interval.
pub open spec fn span_covers(sp: TeamHistorySpan, team_id: i64, year: int) -> bool {
    sp.team_id == team_id && sp.season_start <= year <= sp.season_end
}

/// The league of the first covering span, scanning in table order.
pub open spec fn find_league(spans: Seq<TeamHistorySpan>, team_id: i64, year: int) -> Option<i32>
    decreases spans.len(),
{
    if spans.len() == 0 {
        None
    } else if span_covers(spans[0], team_id, year) {
        Some(spans[0].league_id)
    } else {
        find_league(spans.drop_first(), team_id, year)
    }
}

pub proof fn lemma_find_league(spans: Seq<TeamHistorySpan>, team_id: i64, year: int)
    ensures
        match find_league(spans, team_id, year) {
            Some(l) => exists|i: int|
                0 <= i < spans.len() && span_covers(#[trigger] spans[i], team_id, year)
                    && l == spans[i].league_id && forall|j: int|
                    0 <= j < i ==> !span_covers(#[trigger] spans[j], team_id, year),
            None => forall|j: int|
                0 <= j < spans.len() ==> !span_covers(#[trigger] spans[j], team_id, year),
        },
    decreases spans.len(),
{
    if spans.len() > 0 && !span_covers(spans[0], team_id, year) {
        lemma_find_league(spans.drop_first(), team_id, year);
        assert(forall|j: int| 1 <= j < spans.len() ==> spans[j] == spans.drop_first()[j - 1]);
        if find_league(spans, team_id, year) is Some {
            let i0 = choose|i0: int|
                0 <= i0 < spans.drop_first().len() && span_covers(
                    #[trigger] spans.drop_first()[i0],
                    team_id,
                    year,
                ) && find_league(spans, team_id, year)->0 == spans.drop_first()[i0].league_id
                    && forall|j: int|
                    0 <= j < i0 ==> !span_covers(#[trigger] spans.drop_first()[j], team_id, year);
            assert(span_covers(spans[i0 + 1], team_id, year));
            assert(forall|j: int| 0 <= j < i0 + 1 ==> !span_covers(spans[j], team_id, year));
        }
    }
}

/// The league a team played in during a season year, if the history table
/// has a covering span.
#[verifier::loop_isolation(false)]
pub fn league_id_for_game(team_id: i64, season_year: i32, spans: &Vec<TeamHistorySpan>) -> (r:
    Option<i32>)
    ensures
        r == find_league(spans@, team_id, season_year as int),
{
    proof {
        lemma_find_league(spans@, team_id, season_year as int);
    }
    let mut i: usize = 0;
    while i < spans.len()
        invariant
            0 <= i <= spans@.len(),
            forall|j: int|
                0 <= j < i ==> !span_covers(#[trigger] spans@[j], team_id, season_year as int),
        decreases spans@.len() - i,
    {
        let sp = &spans[i];
        if sp.team_id == team_id && sp.season_start <= season_year && season_year <= sp.season_end {
            proof {
                lemma_find_league(spans@, team_id, season_year as int);
                if find_league(spans@, team_id, season_year as int) is Some {
                    let k = choose|k: int|
                        0 <= k < spans@.len() && span_covers(
                            #[trigger] spans@[k],
                            team_id,
                            season_year as int,
                        ) && find_league(spans@, team_id, season_year as int)->0
                            == spans@[k].league_id && forall|j: int|
                            0 <= j < k ==> !span_covers(
                                #[trigger] spans@[j],
                                team_id,
                                season_year as int,
                            );
                    if k < i {
                        assert(!span_covers(spans@[k], team_id, season_year as int));
                    }
                    if k > i {
                        assert(!span_covers(spans@[i as int], team_id, season_year as int));
                    }
                    assert(k == i);
                }
            }
            return Some(sp.league_id);
        }
        i = i + 1;
    }
    None
}

/// The default league when no span covers the year: the legacy league for
/// years before the merger season, else the modern league.
pub open spec fn fallback_league(year: int) -> i32 {
    if year < 1949 {
        2
    } else {
        1
    }
}

/// Total team/league resolution: span lookup with the documented fallback.
pub open spec fn resolved_league(spans: Seq<TeamHistorySpan>, team_id: i64, year: int) -> i32 {
    match find_league(spans, team_id, year) {
        Some(l) => l,
        None => fallback_league(year),
    }
}

pub fn resolve_league_id(team_id: i64, season_year: i32, spans: &Vec<TeamHistorySpan>) -> (r: i32)
    ensures
        r == resolved_league(spans@, team_id, season_year as int),
{
    match league_id_for_game(team_id, season_year, spans) {
        Some(l) => l,
        None => {
            if season_year < 1949 {
                2
            } else {
                1
            }
        },
    }
}

/// The decimal digits of a string, in order, everything else dropped.
pub open spec fn digit_filter(s: Seq<char>) -> Seq<char>
    decreases s.len(),
{
    if s.len() == 0 {
        Seq::<char>::empty()
    } else if is_digit(s.last()) {
        digit_filter(s.drop_last()).push(s.last())
    } else {
        digit_filter(s.drop_last())
    }
}

pub proof fn lemma_digit_filter_all_digits(s: Seq<char>)
    ensures
        all_digits(digit_filter(s)),
    decreases s.len(),
{
    if s.len() > 0 {
        lemma_digit_filter_all_digits(s.drop_last());
    }
}

/// Reads a rank like `"1st"` or `"T-3"` by keeping only its digits;
/// fails when no digits remain or the number overflows.
pub fn parse_rank(value: String) -> (r: Option<i32>)
    ensures
        r is Some <==> digit_filter(value@).len() > 0 && digits_val(digit_filter(value@))
            <= i32::MAX,
        r matches Some(x) ==> x as int == digits_val(digit_filter(value@)),
{
    let v = str_to_chars(value.as_str());
    let mut digits: Vec<char> = Vec::new();
    let mut i: usize = 0;
    while i < v.len()
        invariant
            0 <= i <= v@.len(),
            digits@ == digit_filter(v@.take(i as int)),
        decreases v@.len() - i,
    {
        let c = v[i];
        proof {
            assert(v@.take(i + 1).drop_last() =~= v@.take(i as int));
            assert(v@.take(i + 1).last() == v@[i as int]);
        }
        if '0' <= c && c <= '9' {
            digits.push(c);
        }
        i = i + 1;
    }
    assert(v@.take(v@.len() as int) =~= v@);
    proof {
        lemma_digit_filter_all_digits(v@);
        if digits@.len() > 0 {
            assert(int_syntax_ok(digits@)) by {
                assert(is_digit(digits@[0]));
            }
            assert(int_value(digits@) == digits_val(digits@));
            crate::text::lemma_digits_val_nonneg(digits@);
        }
    }
    parse_i32_chars(&digits)
}

/// One team row per distinct team id, first occurrence wins.
pub open spec fn team_of(e: TeamMapEntry) -> Team {
    Team {
        team_id: e.team_id,
        league_id: e.league_id,
        franchise_code: Some(e.abbreviation),
        nba_api_team_id: Some(e.team_id),
    }
}

pub open spec fn teams_from(entries: Seq<TeamMapEntry>) -> Seq<Team>
    decreases entries.len(),
{
    if entries.len() == 0 {
        Seq::<Team>::empty()
    } else {
        let prefix = teams_from(entries.drop_last());
        let e = entries.last();
        if exists|j: int|
            0 <= j < entries.len() - 1 && (#[trigger] entries[j]).team_id == e.team_id {
            prefix
        } else {
            prefix.push(team_of(e))
        }
    }
}

/// Builds the team table from history entries, deduplicating by team id.
#[verifier::loop_isolation(false)]
pub fn build_teams_from_history(entries: &Vec<TeamMapEntry>) -> (r: Vec<Team>)
    ensures
        r@ == teams_from(entries@),
{
    let mut out: Vec<Team> = Vec::new();
    let mut i: usize = 0;
    while i < entries.len()
        invariant
            0 <= i <= entries@.len(),
            out@ == teams_from(entries@.take(i as int)),
        decreases entries@.len() - i,
    {
        let e = &entries[i];
        let mut seen = false;
        let mut j: usize = 0;
        while j < i
            invariant
                0 <= j <= i,
                seen == exists|k: int|
                    0 <= k < j && (#[trigger] entries@[k]).team_id == entries@[i as int].team_id,
            decreases i - j,
        {
            if entries[j].team_id == e.team_id {
                seen = true;
            }
            j = j + 1;
        }
        proof {
            assert(entries@.take(i + 1).drop_last() =~= entries@.take(i as int));
            assert(entries@.take(i + 1).last() == entries@[i as int]);
            assert(forall|k: int|
                0 <= k < i ==> #[trigger] entries@.take(i + 1)[k] == entries@[k]);
        }
        if !seen {
            out.push(
                Team {
                    team_id: e.team_id,
                    league_id: e.league_id,
                    franchise_code: Some(e.abbreviation.clone()),
                    nba_api_team_id: Some(e.team_id),
                },
            );
            proof {
                let t = entries@.take(i + 1);
                assert_by_contradiction!(
                    !(exists|j: int| 0 <= j < t.len() - 1 && (#[trigger] t[j]).team_id == t.last().team_id),
                    {
                        let j = choose|j: int|
                            0 <= j < t.len() - 1 && (#[trigger] t[j]).team_id == t.last().team_id;
                        assert(entries@[j].team_id == entries@[i as int].team_id);
                    }
                );
                assert(out@ =~= teams_from(t));
            }
        } else {
            proof {
                let t = entries@.take(i + 1);
                let k = choose|k: int|
                    0 <= k < i && (#[trigger] entries@[k]).team_id == entries@[i as int].team_id;
                assert((#[trigger] t[k]).team_id == t.last().team_id);
                assert(teams_from(t) == teams_from(t.drop_last()));
            }
        }
        i = i + 1;
    }
    assert(entries@.take(entries@.len() as int) =~= entries@);
    out
}

} // verus!

//! The stat glossary and navigation entries the presentation layer shows.

use vstd::prelude::*;
use crate::text::{chars_eq, lower, lower_chars, str_to_chars};

verus! {

#[derive(Debug, Clone, Copy)]
pub struct NavItem {
    pub label: &'static str,
    pub href: &'static str,
}

#[derive(Debug, Clone, Copy)]
pub struct StatDefinition {
    pub abbr: &'static str,
    pub label: &'static str,
    pub description: &'static str,
}

/// The glossary, in display order.
pub open spec fn stat_glossary_spec() -> Seq<StatDefinition> {
    seq![
        StatDefinition { abbr: "G", label: "Games", description: "Games played." },
        StatDefinition { abbr: "PTS", label: "Points", description: "Total points scored." },
        StatDefinition {
            abbr: "REB",
            label: "Rebounds",
            description: "Total rebounds (offensive + defensive).",
        },
        StatDefinition { abbr: "AST", label: "Assists", description: "Total assists." },
        StatDefinition {
            abbr: "FG%",
            label: "Field Goal %",
            description: "Field goals made divided by field goals attempted.",
        },
        StatDefinition {
            abbr: "3P%",
            label: "3-Point %",
            description: "3-point field goals made divided by attempts.",
        },
        StatDefinition {
            abbr: "FT%",
            label: "Free Throw %",
            description: "Free throws made divided by attempts.",
        },
        StatDefinition {
            abbr: "PER",
            label: "Player Efficiency Rating",
            description: "Overall per-minute productivity metric.",
        },
        StatDefinition {
            abbr: "TS%",
            label: "True Shooting %",
            description: "Scoring efficiency including 2P, 3P, and FT.",
        },
        StatDefinition {
            abbr: "USG%",
            label: "Usage Rate",
            description: "Estimated percentage of team plays used.",
        },
        StatDefinition {
            abbr: "WS",
            label: "Win Shares",
            description: "Estimated wins contributed.",
        },
        StatDefinition {
            abbr: "BPM",
            label: "Box Plus/Minus",
            description: "Estimated point impact per 100 possessions.",
        },
        StatDefinition {
            abbr: "VORP",
            label: "Value Over Replacement",
            description: "Value contributed over a replacement-level player.",
        },
        StatDefinition {
            abbr: "SRS",
            label: "Simple Rating System",
            description: "Team rating based on point differential and schedule.",
        },
        StatDefinition {
            abbr: "PACE",
            label: "Pace",
            description: "Estimated possessions per 48 minutes.",
        },
        StatDefinition {
            abbr: "ORtg",
            label: "Offensive Rating",
            description: "Points scored per 100 possessions.",
        },
        StatDefinition {
            abbr: "DRtg",
            label: "Defensive Rating",
            description: "Points allowed per 100 possessions.",
        },
        StatDefinition {
            abbr: "NetRtg",
            label: "Net Rating",
            description: "Offensive rating minus defensive rating.",
        },
        StatDefinition { abbr: "W", label: "Wins", description: "Regular season wins." },
        StatDefinition { abbr: "L", label: "Losses", description: "Regular season losses." },
    ]
}

/// The glossary as a vector.
pub fn stat_glossary() -> (r: Vec<StatDefinition>)
    ensures
        r@ == stat_glossary_spec(),
{
    let mut out: Vec<StatDefinition> = Vec::new();
    out.push(StatDefinition { abbr: "G", label: "Games", description: "Games played." });
    out.push(StatDefinition { abbr: "PTS", label: "Points", description: "Total points scored." });
    out.push(
        StatDefinition {
            abbr: "REB",
            label: "Rebounds",
            description: "Total rebounds (offensive + defensive).",
        },
    );
    out.push(StatDefinition { abbr: "AST", label: "Assists", description: "Total assists." });
    out.push(
        StatDefinition {
            abbr: "FG%",
            label: "Field Goal %",
            description: "Field goals made divided by field goals attempted.",
        },
    );
    out.push(
        StatDefinition {
            abbr: "3P%",
            label: "3-Point %",
            description: "3-point field goals made divided by attempts.",
        },
    );
    out.push(
        StatDefinition {
            abbr: "FT%",
            label: "Free Throw %",
            description: "Free throws made divided by attempts.",
        },
    );
    out.push(
        StatDefinition {
            abbr: "PER",
            label: "Player Efficiency Rating",
            description: "Overall per-minute productivity metric.",
        },
    );
    out.push(
        StatDefinition {
            abbr: "TS%",
            label: "True Shooting %",
            description: "Scoring efficiency including 2P, 3P, and FT.",
        },
    );
    out.push(
        StatDefinition {
            abbr: "USG%",
            label: "Usage Rate",
            description: "Estimated percentage of team plays used.",
        },
    );
    out.push(
        StatDefinition {
            abbr: "WS",
            label: "Win Shares",
            description: "Estimated wins contributed.",
        },
    );
    out.push(
        StatDefinition {
            abbr: "BPM",
            label: "Box Plus/Minus",
            description: "Estimated point impact per 100 possessions.",
        },
    );
    out.push(
        StatDefinition {
            abbr: "VORP",
            label: "Value Over Replacement",
            description: "Value contributed over a replacement-level player.",
        },
    );
    out.push(
        StatDefinition {
            abbr: "SRS",
            label: "Simple Rating System",
            description: "Team rating based on point differential and schedule.",
        },
    );
    out.push(
        StatDefinition {
            abbr: "PACE",
            label: "Pace",
            description: "Estimated possessions per 48 minutes.",
        },
    );
    out.push(
        StatDefinition {
            abbr: "ORtg",
            label: "Offensive Rating",
            description: "Points scored per 100 possessions.",
        },
    );
    out.push(
        StatDefinition {
            abbr: "DRtg",
            label: "Defensive Rating",
            description: "Points allowed per 100 possessions.",
        },
    );
    out.push(
        StatDefinition {
            abbr: "NetRtg",
            label: "Net Rating",
            description: "Offensive rating minus defensive rating.",
        },
    );
    out.push(StatDefinition { abbr: "W", label: "Wins", description: "Regular season wins." });
    out.push(StatDefinition { abbr: "L", label: "Losses", description: "Regular season losses." });
    assert(out@ =~= stat_glossary_spec());
    out
}

/// Looks an abbreviation up in the glossary, ignoring ASCII case.
#[verifier::loop_isolation(false)]
pub fn stat_definition(abbr: &str) -> (r: Option<StatDefinition>)
    ensures
        (r is Some) == exists|i: int|
            0 <= i < stat_glossary_spec().len() && lower(
                (#[trigger] stat_glossary_spec()[i]).abbr@,
            ) == lower(abbr@),
        r matches Some(d) ==> exists|i: int|
            0 <= i < stat_glossary_spec().len() && d == #[trigger] stat_glossary_spec()[i]
                && lower(d.abbr@) == lower(abbr@),
{
    let defs = stat_glossary();
    let target = lower_chars(&str_to_chars(abbr));
    let mut i: usize = 0;
    while i < defs.len()
        invariant
            0 <= i <= defs@.len(),
            defs@ == stat_glossary_spec(),
            target@ == lower(abbr@),
            forall|j: int|
                0 <= j < i ==> lower((#[trigger] stat_glossary_spec()[j]).abbr@) != lower(abbr@),
        decreases defs@.len() - i,
    {
        let candidate = lower_chars(&str_to_chars(defs[i].abbr));
        if chars_eq(&candidate, &target) {
            assert(lower(stat_glossary_spec()[i as int].abbr@) == lower(abbr@));
            return Some(defs[i]);
        }
        i = i + 1;
    }
    proof {
        if exists|k: int|
            0 <= k < stat_glossary_spec().len() && lower(
                (#[trigger] stat_glossary_spec()[k]).abbr@,
            ) == lower(abbr@) {
            let k = choose|k: int|
                0 <= k < stat_glossary_spec().len() && lower(
                    (#[trigger] stat_glossary_spec()[k]).abbr@,
                ) == lower(abbr@);
            assert(lower(stat_glossary_spec()[k].abbr@) != lower(abbr@));
        }
    }
    None
}

} // verus!

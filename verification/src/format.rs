//! Display helpers for the presentation layer: optional-value rendering,
//! team labels, and the abbreviation-to-label lookup table.

use vstd::prelude::*;
use crate::models::TeamHistoryRow;
use crate::text::{
    chars_eq, chars_lt, chars_to_string, int_str, i32_to_chars, lemma_lex_connex, lemma_lex_irrefl,
    lemma_lex_trans, lex_lt, str_to_chars,
};

verus! {

/// An optional count, or a dash when absent.
pub fn format_optional_i32(value: Option<i32>) -> (r: String)
    ensures
        match value {
            Some(v) => r@ == int_str(v as int),
            None => r@ == "-"@,
        },
{
    match value {
        Some(v) => chars_to_string(&i32_to_chars(v)),
        None => {
            let v = str_to_chars("-");
            chars_to_string(&v)
        },
    }
}

/// `{city} {nickname}`.
pub fn format_team_label(city: &str, nickname: &str) -> (r: String)
    ensures
        r@ == city@ + " "@ + nickname@,
{
    let mut out = str_to_chars(city);
    let mut sep = str_to_chars(" ");
    out.append(&mut sep);
    let mut nick = str_to_chars(nickname);
    out.append(&mut nick);
    assert(out@ =~= city@ + " "@ + nickname@);
    chars_to_string(&out)
}

pub open spec fn team_label_of(r: TeamHistoryRow) -> Seq<char> {
    r.city@ + " "@ + r.nickname@
}

pub open spec fn has_abbrev(r: TeamHistoryRow, a: Seq<char>) -> bool {
    match r.abbreviation {
        Some(x) => x@ == a,
        None => false,
    }
}

/// Row `w` carries abbreviation `a` and is the one the lookup keeps: every
/// other row with the same abbreviation starts earlier, or starts the same
/// day and appears earlier in the table.
pub open spec fn newest_for(rows: Seq<TeamHistoryRow>, w: int, a: Seq<char>) -> bool {
    &&& 0 <= w < rows.len()
    &&& has_abbrev(rows[w], a)
    &&& forall|j: int|
        0 <= j < rows.len() && j != w && has_abbrev(#[trigger] rows[j], a) ==> lex_lt(
            rows[j].effective_start@,
            rows[w].effective_start@,
        ) || (rows[j].effective_start@ == rows[w].effective_start@ && j < w)
}

/// The row the lookup keeps for an abbreviation.
pub open spec fn winner_of(rows: Seq<TeamHistoryRow>, a: Seq<char>) -> int {
    choose|w: int| newest_for(rows, w, a)
}

/// At most one row is the newest for a given abbreviation.
pub proof fn lemma_newest_unique(rows: Seq<TeamHistoryRow>, w1: int, w2: int, a: Seq<char>)
    requires
        newest_for(rows, w1, a),
        newest_for(rows, w2, a),
    ensures
        w1 == w2,
{
    if w1 != w2 {
        let s1 = rows[w1].effective_start@;
        let s2 = rows[w2].effective_start@;
        lemma_lex_irrefl(s1);
        if lex_lt(s1, s2) && lex_lt(s2, s1) {
            lemma_lex_trans(s1, s2, s1);
        }
    }
}

/// Builds the abbreviation-to-label table: one entry per distinct
/// abbreviation, labeled from the row with the newest effective start
/// (ties broken toward the later row).
#[verifier::loop_isolation(false)]
pub fn build_team_lookup(histories: &Vec<TeamHistoryRow>) -> (r: Vec<(String, String)>)
    ensures
        forall|k: int|
            #![trigger r@[k]]
            0 <= k < r@.len() ==> newest_for(histories@, winner_of(histories@, r@[k].0@), r@[k].0@)
                && r@[k].1@ == team_label_of(histories@[winner_of(histories@, r@[k].0@)]),
        forall|j: int|
            0 <= j < histories@.len() && (#[trigger] histories@[j]).abbreviation is Some
                ==> exists|k: int|
                0 <= k < r@.len() && (#[trigger] r@[k].0)@ == histories@[j].abbreviation->0@,
        forall|k1: int, k2: int|
            0 <= k1 < k2 < r@.len() ==> (#[trigger] r@[k1].0)@ != (#[trigger] r@[k2].0)@,
{
    let rows = histories;
    let mut out: Vec<(String, String)> = Vec::new();
    let mut starts: Vec<String> = Vec::new();
    let ghost mut wins: Seq<int> = Seq::empty();
    let mut i: usize = 0;
    while i < rows.len()
        invariant
            0 <= i <= rows@.len(),
            out@.len() == starts@.len() == wins.len(),
            forall|k: int|
                0 <= k < wins.len() ==> {
                    let w = #[trigger] wins[k];
                    &&& 0 <= w < i
                    &&& has_abbrev(rows@[w], out@[k].0@)
                    &&& out@[k].1@ == team_label_of(rows@[w])
                    &&& starts@[k]@ == rows@[w].effective_start@
                },
            forall|k: int, j: int|
                0 <= k < wins.len() && 0 <= j < i && j != wins[k] && has_abbrev(
                    #[trigger] rows@[j],
                    (#[trigger] out@[k].0)@,
                ) ==> lex_lt(rows@[j].effective_start@, rows@[wins[k]].effective_start@) || (
                rows@[j].effective_start@ == rows@[wins[k]].effective_start@ && j < wins[k]),
            forall|j: int|
                0 <= j < i && (#[trigger] rows@[j]).abbreviation is Some ==> exists|k: int|
                    0 <= k < out@.len() && (#[trigger] out@[k].0)@ == rows@[j].abbreviation->0@,
            forall|k1: int, k2: int|
                0 <= k1 < k2 < out@.len() ==> (#[trigger] out@[k1].0)@ != (#[trigger] out@[k2].0)@,
        decreases rows@.len() - i,
    {
        let row = &rows[i];
        match &row.abbreviation {
            None => {},
            Some(abbrev) => {
                let av = str_to_chars(abbrev.as_str());
                // look for an existing entry under this abbreviation
                let mut found: Option<usize> = None;
                let mut k: usize = 0;
                while k < out.len()
                    invariant
                        0 <= k <= out@.len(),
                        av@ == rows@[i as int].abbreviation->0@,
                        found is None ==> forall|m: int| 0 <= m < k ==> (#[trigger] out@[m].0)@ != av@,
                        found matches Some(f) ==> 0 <= f < out@.len() && out@[f as int].0@ == av@,
                    decreases out@.len() - k,
                {
                    if found.is_none() && chars_eq(&str_to_chars(out[k].0.as_str()), &av) {
                        found = Some(k);
                    }
                    k = k + 1;
                }
                let label = format_team_label(row.city.as_str(), row.nickname.as_str());
                let new_start = str_to_chars(row.effective_start.as_str());
                match found {
                    None => {
                        let ghost old_out = out@;
                        out.push((chars_to_string(&av), label));
                        starts.push(chars_to_string(&new_start));
                        proof {
                            wins = wins.push(i as int);
                            assert(forall|m: int|
                                0 <= m < old_out.len() ==> #[trigger] out@[m] == old_out[m]);
                            // any earlier row with this abbreviation would
                            // already have an entry, and none does
                            assert forall|j: int|
                                0 <= j < i && has_abbrev(#[trigger] rows@[j], av@) implies false by {
                                let kk = choose|kk: int|
                                    0 <= kk < old_out.len() && (#[trigger] old_out[kk].0)@
                                        == rows@[j].abbreviation->0@;
                                assert(old_out[kk].0@ != av@);
                            }
                            assert(has_abbrev(rows@[i as int], out@[out@.len() - 1].0@));
                            assert forall|j: int|
                                0 <= j < i + 1 && (#[trigger] rows@[j]).abbreviation is Some
                                    implies exists|kk: int|
                                    0 <= kk < out@.len() && (#[trigger] out@[kk].0)@
                                        == rows@[j].abbreviation->0@ by {
                                if j == i {
                                    assert(out@[out@.len() - 1].0@ == av@);
                                } else {
                                    let kk = choose|kk: int|
                                        0 <= kk < old_out.len() && (#[trigger] old_out[kk].0)@
                                            == rows@[j].abbreviation->0@;
                                    assert(out@[kk].0@ == rows@[j].abbreviation->0@);
                                }
                            }
                        }
                    },
                    Some(f) => {
                        let replace = !chars_lt(&new_start, &str_to_chars(starts[f].as_str()));
                        if replace {
                            proof {
                                let w0 = wins[f as int];
                                if lex_lt(rows@[w0].effective_start@, rows@[i as int].effective_start@) {
                                } else {
                                    lemma_lex_connex(
                                        rows@[i as int].effective_start@,
                                        rows@[w0].effective_start@,
                                    );
                                }
                            }
                            let ghost old_out = out@;
                            let ghost w0 = wins[f as int];
                            out[f] = (chars_to_string(&av), label);
                            starts[f] = chars_to_string(&new_start);
                            proof {
                                wins = wins.update(f as int, i as int);
                                assert(out@[f as int].0@ == av@);
                                assert(forall|m: int|
                                    0 <= m < out@.len() && m != f ==> #[trigger] out@[m]
                                        == old_out[m]);
                                assert forall|kk: int, j: int|
                                    0 <= kk < wins.len() && 0 <= j < i + 1 && j != wins[kk]
                                        && has_abbrev(
                                        #[trigger] rows@[j],
                                        (#[trigger] out@[kk].0)@,
                                    ) implies lex_lt(
                                    rows@[j].effective_start@,
                                    rows@[wins[kk]].effective_start@,
                                ) || (rows@[j].effective_start@ == rows@[wins[kk]].effective_start@
                                    && j < wins[kk]) by {
                                    if kk == f {
                                        // the new winner is row i
                                        let si = rows@[i as int].effective_start@;
                                        let sw = rows@[w0].effective_start@;
                                        if j == w0 {
                                            if !(sw == si) {
                                                assert(lex_lt(sw, si));
                                            }
                                        } else if j < i {
                                            // the old winner dominated j
                                            assert(lex_lt(rows@[j].effective_start@, sw) || (
                                            rows@[j].effective_start@ == sw && j < w0));
                                            if lex_lt(rows@[j].effective_start@, sw) {
                                                if sw == si {
                                                } else {
                                                    lemma_lex_trans(
                                                        rows@[j].effective_start@,
                                                        sw,
                                                        si,
                                                    );
                                                }
                                            }
                                        }
                                    } else {
                                        assert(out@[kk] == old_out[kk]);
                                        if j < i {
                                        } else {
                                            // row i carries a different abbreviation
                                            assert(out@[f as int].0@ == av@);
                                        }
                                    }
                                }
                                assert forall|j: int|
                                    0 <= j < i + 1 && (#[trigger] rows@[j]).abbreviation is Some
                                        implies exists|kk: int|
                                        0 <= kk < out@.len() && (#[trigger] out@[kk].0)@
                                            == rows@[j].abbreviation->0@ by {
                                    if j == i {
                                        assert(out@[f as int].0@ == av@);
                                    } else {
                                        let kk = choose|kk: int|
                                            0 <= kk < old_out.len() && (#[trigger] old_out[kk].0)@
                                                == rows@[j].abbreviation->0@;
                                        if kk == f {
                                            assert(old_out[f as int].0@ == av@);
                                            assert(out@[f as int].0@ == av@);
                                        } else {
                                            assert(out@[kk] == old_out[kk]);
                                        }
                                        assert(out@[kk].0@ == rows@[j].abbreviation->0@);
                                    }
                                }
                            }
                        } else {
                            // the existing entry stays: row i starts earlier
                            proof {
                                let w0 = wins[f as int];
                                assert(lex_lt(
                                    rows@[i as int].effective_start@,
                                    rows@[w0].effective_start@,
                                ));
                                assert(out@[f as int].0@ == rows@[i as int].abbreviation->0@);
                            }
                        }
                    },
                }
            },
        }
        i = i + 1;
    }
    proof {
        assert forall|k: int|
            #![trigger out@[k]]
            0 <= k < out@.len() implies newest_for(
            histories@,
            winner_of(histories@, out@[k].0@),
            out@[k].0@,
        ) && out@[k].1@ == team_label_of(
            histories@[winner_of(histories@, out@[k].0@)],
        ) by {
            let w = wins[k];
            assert(newest_for(histories@, w, out@[k].0@));
            assert(exists|w0: int| newest_for(histories@, w0, out@[k].0@));
            let wc = winner_of(histories@, out@[k].0@);
            assert(newest_for(histories@, wc, out@[k].0@));
            lemma_newest_unique(histories@, w, wc, out@[k].0@);
            assert(out@[k].1@ == team_label_of(histories@[wc]));
        }
    }
    out
}

} // verus!

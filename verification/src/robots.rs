//! robots.txt crawl-delay parsing.
//!
//! Directives are grouped by consecutive `User-agent:` lines; a group's
//! `Crawl-delay:` applies to every agent named before the next blank line
//! or the next `User-agent:` run. Matching is case-insensitive; an exact
//! agent match takes priority over a `*` group, and among `*` groups the
//! last one wins.

use vstd::prelude::*;
use crate::text::{
    all_digits, chars_eq, digits_val, find_char, find_in, is_digit, lemma_digits_val_nonneg,
    lemma_find_char, lemma_find_char_append, lower, lower_chars, str_to_chars, sub_chars, trim,
    trim_chars,
};

verus! {

/// The lines of a text, split as `str::lines` splits: at `\n`, with a
/// `\r` dropped before each split point, and no empty final line.
pub open spec fn lines_of(s: Seq<char>) -> Seq<Seq<char>>
    decreases s.len(),
    via lines_of_decreases
{
    if s.len() == 0 {
        Seq::<Seq<char>>::empty()
    } else {
        match find_char(s, '\n') {
            Some(i) => seq![strip_cr(s.take(i))] + lines_of(s.skip(i + 1)),
            None => seq![s],
        }
    }
}

#[via_fn]
proof fn lines_of_decreases(s: Seq<char>) {
    lemma_find_char(s, '\n');
}

pub open spec fn strip_cr(l: Seq<char>) -> Seq<char> {
    if l.len() > 0 && l.last() == '\r' {
        l.drop_last()
    } else {
        l
    }
}

/// View of a vector of char vectors as a sequence of char sequences.
pub open spec fn vv_view(v: Seq<Vec<char>>) -> Seq<Seq<char>> {
    v.map_values(|x: Vec<char>| x@)
}

/// Splits a text into its lines.
#[verifier::loop_isolation(false)]
pub fn split_lines(v: &Vec<char>) -> (r: Vec<Vec<char>>)
    ensures
        vv_view(r@) == lines_of(v@),
{
    let n = v.len();
    let mut out: Vec<Vec<char>> = Vec::new();
    let mut cur: Vec<char> = Vec::new();
    let mut i: usize = 0;
    proof {
        assert(cur@ + v@.skip(0) =~= v@);
        assert(vv_view(out@) + lines_of(v@) =~= lines_of(v@));
    }
    while i < n
        invariant
            0 <= i <= n,
            forall|j: int| 0 <= j < cur@.len() ==> cur@[j] != '\n',
            lines_of(v@) == vv_view(out@) + lines_of(cur@ + v@.skip(i as int)),
        decreases n - i,
    {
        let c = v[i];
        proof {
            assert(v@.skip(i as int) =~= seq![v@[i as int]] + v@.skip(i + 1));
        }
        if c == '\n' {
            let ghost rest = cur@ + v@.skip(i as int);
            proof {
                lemma_find_char_append(cur@, v@.skip(i as int), '\n');
                assert(find_char(v@.skip(i as int), '\n') == Some(0int)) by {
                    assert(v@.skip(i as int)[0] == '\n');
                }
                assert(find_char(rest, '\n') == Some(cur@.len() as int));
                assert(rest.take(cur@.len() as int) =~= cur@);
                assert(rest.skip(cur@.len() as int + 1) =~= v@.skip(i + 1));
                assert(rest.len() > 0);
                assert(lines_of(rest) == seq![strip_cr(cur@)] + lines_of(v@.skip(i + 1)));
            }
            let mut stripped = cur;
            if stripped.len() > 0 && stripped[stripped.len() - 1] == '\r' {
                stripped.pop();
                assert(stripped@ =~= strip_cr(rest.take(cur@.len() as int)));
            }
            assert(stripped@ == strip_cr(cur@));
            out.push(stripped);
            proof {
                assert(vv_view(out@) =~= vv_view(out@.drop_last()).push(strip_cr(cur@)));
                assert(vv_view(out@) + lines_of(v@.skip(i + 1)) =~= (vv_view(out@.drop_last())
                    + seq![strip_cr(cur@)]) + lines_of(v@.skip(i + 1)));
            }
            cur = Vec::new();
        } else {
            let ghost old_cur = cur@;
            cur.push(c);
            proof {
                assert(cur@ + v@.skip(i + 1) =~= old_cur + v@.skip(i as int));
            }
        }
        i = i + 1;
    }
    proof {
        assert(v@.skip(n as int) =~= Seq::<char>::empty());
        assert(cur@ + v@.skip(n as int) =~= cur@);
        lemma_find_char(cur@, '\n');
        if cur@.len() == 0 {
            assert(lines_of(cur@) =~= Seq::<Seq<char>>::empty());
            assert(vv_view(out@) + lines_of(cur@) =~= vv_view(out@));
        } else {
            assert(find_char(cur@, '\n') is None);
            assert(lines_of(cur@) == seq![cur@]);
        }
    }
    if cur.len() > 0 {
        out.push(cur);
        proof {
            assert(vv_view(out@) =~= vv_view(out@.drop_last()) + seq![out@.last()@]);
        }
    }
    out
}

/// A delay value may carry a leading `+`.
pub open spec fn delay_body(s: Seq<char>) -> Seq<char> {
    if s.len() > 0 && s[0] == '+' {
        s.drop_first()
    } else {
        s
    }
}

/// `[+]? digit* [. digit*]` with at least one digit somewhere.
pub open spec fn delay_syntax_ok(s: Seq<char>) -> bool {
    let b = delay_body(s);
    match find_char(b, '.') {
        None => b.len() > 0 && all_digits(b),
        Some(i) => all_digits(b.take(i)) && all_digits(b.skip(i + 1)) && b.len() > 1,
    }
}

/// The first three fractional digits, scaled to milliseconds.
pub open spec fn frac_ms(fp: Seq<char>) -> int {
    if fp.len() >= 3 {
        digits_val(fp.take(3))
    } else if fp.len() == 2 {
        digits_val(fp) * 10
    } else if fp.len() == 1 {
        digits_val(fp) * 100
    } else {
        0
    }
}

/// Whole milliseconds of a well-formed decimal-seconds literal, truncated.
pub open spec fn delay_ms_total(s: Seq<char>) -> int {
    let b = delay_body(s);
    match find_char(b, '.') {
        None => digits_val(b) * 1000,
        Some(i) => digits_val(b.take(i)) * 1000 + frac_ms(b.skip(i + 1)),
    }
}

/// A crawl-delay directive's value in milliseconds: seconds with up to
/// millisecond precision, clipped at `u64::MAX`; anything unreadable or
/// negative imposes no delay. The grammar above is the whole policy: a
/// value in any other numeric form (an exponent, a named non-finite)
/// deliberately reads as no delay.
pub open spec fn delay_ms_of(s: Seq<char>) -> Option<u64> {
    if delay_syntax_ok(s) {
        Some(
            if delay_ms_total(s) > u64::MAX {
                u64::MAX
            } else {
                delay_ms_total(s) as u64
            },
        )
    } else {
        None
    }
}

/// Scans `v[from..to]` as digits. `None`: a non-digit occurs. `Some(None)`:
/// all digits but the value exceeds `u64::MAX`. `Some(Some(x))`: the value.
#[verifier::loop_isolation(false)]
fn scan_digits(v: &Vec<char>, from: usize, to: usize) -> (r: Option<Option<u64>>)
    requires
        0 <= from <= to <= v@.len(),
    ensures
        (r is None) == !all_digits(v@.subrange(from as int, to as int)),
        r == Some(None::<u64>) ==> digits_val(v@.subrange(from as int, to as int)) > u64::MAX,
        r matches Some(Some(x)) ==> x as int == digits_val(v@.subrange(from as int, to as int)),
{
    let ghost t = v@.subrange(from as int, to as int);
    let mut acc: u64 = 0;
    let mut over = false;
    let mut i: usize = from;
    while i < to
        invariant
            from <= i <= to,
            all_digits(v@.subrange(from as int, i as int)),
            !over ==> acc as int == digits_val(v@.subrange(from as int, i as int)),
            over ==> digits_val(v@.subrange(from as int, i as int)) > u64::MAX,
        decreases to - i,
    {
        let c = v[i];
        if !('0' <= c && c <= '9') {
            assert(!all_digits(t)) by {
                assert(t[i - from] == c);
            }
            return None;
        }
        let d = (c as u8) - 48;
        let ghost p = v@.subrange(from as int, i as int);
        let ghost q = v@.subrange(from as int, i + 1);
        proof {
            assert(q.drop_last() =~= p);
            assert(q.last() == c);
            lemma_digits_val_nonneg(q);
        }
        if !over {
            let wide: u128 = (acc as u128) * 10 + (d as u128);
            if wide > u64::MAX as u128 {
                over = true;
            } else {
                acc = wide as u64;
            }
        } else {
            assert(digits_val(q) >= digits_val(p)) by {
                lemma_digits_val_nonneg(p);
            }
        }
        i = i + 1;
    }
    proof {
        assert(v@.subrange(from as int, to as int) =~= t);
    }
    if over {
        Some(None)
    } else {
        Some(Some(acc))
    }
}

/// Reads a crawl-delay value, per `delay_ms_of`.
fn parse_delay_value(v: &Vec<char>) -> (r: Option<u64>)
    ensures
        r == delay_ms_of(v@),
{
    let start: usize = if v.len() > 0 && v[0] == '+' {
        1
    } else {
        0
    };
    let bv = sub_chars(v, start, v.len());
    let ghost b = delay_body(v@);
    proof {
        assert(b =~= bv@);
    }
    match find_in(&bv, '.') {
        None => {
            // a plain run of digits, in whole seconds
            assert(find_char(b, '.') is None);
            proof {
                assert(bv@.subrange(0, bv@.len() as int) =~= b);
            }
            match scan_digits(&bv, 0, bv.len()) {
                None => {
                    assert(!delay_syntax_ok(v@));
                    None
                },
                Some(None) => {
                    assert(delay_syntax_ok(v@) ==> delay_ms_total(v@) > u64::MAX) by {
                        lemma_digits_val_nonneg(b);
                    }
                    if bv.len() > 0 {
                        assert(delay_syntax_ok(v@));
                        Some(u64::MAX)
                    } else {
                        assert(false);
                        None
                    }
                },
                Some(Some(x)) => {
                    if bv.len() == 0 {
                        assert(b.len() == 0);
                        assert(!delay_syntax_ok(v@));
                        None
                    } else {
                        assert(delay_syntax_ok(v@));
                        // seconds to milliseconds, clipped
                        let ms: u128 = (x as u128) * 1000;
                        proof {
                            lemma_digits_val_nonneg(b);
                        }
                        if ms > u64::MAX as u128 {
                            Some(u64::MAX)
                        } else {
                            Some(ms as u64)
                        }
                    }
                },
            }
        },
        Some(di) => {
            assert(find_char(b, '.') == Some(di as int));
            proof {
                lemma_find_char(b, '.');
            }
            let ghost ip = b.take(di as int);
            let ghost fp = b.skip(di + 1);
            proof {
                assert(ip =~= bv@.subrange(0, di as int));
                assert(fp =~= bv@.subrange(di + 1, bv@.len() as int));
            }
            if bv.len() <= 1 {
                // just the dot: no digits at all
                assert(!delay_syntax_ok(v@));
                return None;
            }
            let int_part = scan_digits(&bv, 0, di);
            let frac_all = scan_digits(&bv, di + 1, bv.len());
            if int_part.is_none() || frac_all.is_none() {
                assert(!delay_syntax_ok(v@));
                return None;
            }
            assert(all_digits(ip) && all_digits(fp));
            assert(delay_syntax_ok(v@));
            // milliseconds from the first three fractional digits
            let frac_end: usize = if bv.len() - (di + 1) >= 3 {
                di + 4
            } else {
                bv.len()
            };
            let ghost f3 = bv@.subrange(di + 1, frac_end as int);
            proof {
                assert(all_digits(f3)) by {
                    assert(forall|j: int| 0 <= j < f3.len() ==> f3[j] == #[trigger] fp[j]);
                }
                lemma_digits_small(f3);
                if fp.len() >= 3 {
                    assert(f3 =~= fp.take(3));
                } else {
                    assert(f3 =~= fp);
                }
            }
            let frac3 = match scan_digits(&bv, di + 1, frac_end) {
                Some(Some(x)) => x,
                _ => {
                    assert(false);
                    0
                },
            };
            let flen = frac_end - (di + 1);
            assert(frac3 < 1000);
            let frac_scaled: u64 = if flen == 3 {
                frac3
            } else if flen == 2 {
                frac3 * 10
            } else if flen == 1 {
                frac3 * 100
            } else {
                0
            };
            proof {
                assert(frac_scaled as int == frac_ms(fp));
                assert(frac_scaled <= 999);
            }
            match int_part {
                Some(None) => {
                    proof {
                        lemma_digits_val_nonneg(ip);
                    }
                    Some(u64::MAX)
                },
                Some(Some(x)) => {
                    let ms: u128 = (x as u128) * 1000 + (frac_scaled as u128);
                    proof {
                        lemma_digits_val_nonneg(ip);
                    }
                    if ms > u64::MAX as u128 {
                        Some(u64::MAX)
                    } else {
                        Some(ms as u64)
                    }
                },
                None => {
                    assert(false);
                    None
                },
            }
        },
    }
}

/// Everything before a `#` comment marker.
pub open spec fn before_hash(l: Seq<char>) -> Seq<char> {
    match find_char(l, '#') {
        Some(i) => l.take(i),
        None => l,
    }
}

/// A directive line with its comment stripped and ends trimmed.
pub open spec fn cleaned(l: Seq<char>) -> Seq<char> {
    trim(before_hash(l))
}

/// One agent group: lowercased agent names, and the group's crawl delay.
pub struct RulesGroup {
    pub agents: Seq<Seq<char>>,
    pub delay: Option<u64>,
}

/// Parser state while folding directive lines.
pub struct ParseState {
    pub groups: Seq<RulesGroup>,
    pub cur_agents: Seq<Seq<char>>,
    pub cur_delay: Option<u64>,
    pub saw_directive: bool,
}

pub open spec fn initial_state() -> ParseState {
    ParseState {
        groups: Seq::<RulesGroup>::empty(),
        cur_agents: Seq::<Seq<char>>::empty(),
        cur_delay: None,
        saw_directive: false,
    }
}

pub open spec fn close_group(st: ParseState) -> ParseState {
    ParseState {
        groups: st.groups.push(RulesGroup { agents: st.cur_agents, delay: st.cur_delay }),
        cur_agents: Seq::<Seq<char>>::empty(),
        cur_delay: None,
        saw_directive: false,
    }
}

/// How one line changes the parser state: blank lines close a group once
/// it has content, `User-agent:` lines extend or start a group, any other
/// directive marks the group as begun, and `Crawl-delay:` records a delay.
pub open spec fn line_step(st: ParseState, line: Seq<char>) -> ParseState {
    let l = cleaned(line);
    if l.len() == 0 {
        if st.cur_agents.len() > 0 || st.saw_directive {
            close_group(st)
        } else {
            st
        }
    } else {
        match find_char(l, ':') {
            None => st,
            Some(i) => {
                let field = lower(trim(l.take(i)));
                let value = trim(l.skip(i + 1));
                if field == "user-agent"@ {
                    let st2 = if st.saw_directive {
                        close_group(st)
                    } else {
                        st
                    };
                    ParseState {
                        groups: st2.groups,
                        cur_agents: st2.cur_agents.push(lower(value)),
                        cur_delay: st2.cur_delay,
                        saw_directive: st2.saw_directive,
                    }
                } else {
                    let delay = if field == "crawl-delay"@ {
                        match delay_ms_of(value) {
                            Some(d) => Some(d),
                            None => st.cur_delay,
                        }
                    } else {
                        st.cur_delay
                    };
                    ParseState {
                        groups: st.groups,
                        cur_agents: st.cur_agents,
                        cur_delay: delay,
                        saw_directive: true,
                    }
                }
            },
        }
    }
}

pub open spec fn fold_lines(lines: Seq<Seq<char>>) -> ParseState
    decreases lines.len(),
{
    if lines.len() == 0 {
        initial_state()
    } else {
        line_step(fold_lines(lines.drop_last()), lines.last())
    }
}

/// The agent groups of a robots.txt body, in order of appearance.
pub open spec fn robots_groups(body: Seq<char>) -> Seq<RulesGroup> {
    let st = fold_lines(lines_of(body));
    if st.cur_agents.len() > 0 || st.saw_directive {
        close_group(st).groups
    } else {
        st.groups
    }
}

/// The first group naming the agent exactly.
pub open spec fn first_exact(groups: Seq<RulesGroup>, agent: Seq<char>) -> Option<int>
    decreases groups.len(),
{
    if groups.len() == 0 {
        None
    } else if groups[0].agents.contains(agent) {
        Some(0int)
    } else {
        match first_exact(groups.drop_first(), agent) {
            Some(i) => Some(i + 1),
            None => None,
        }
    }
}

/// The last group naming the `*` wildcard.
pub open spec fn last_wild(groups: Seq<RulesGroup>) -> Option<int>
    decreases groups.len(),
{
    if groups.len() == 0 {
        None
    } else if groups.last().agents.contains("*"@) {
        Some(groups.len() - 1)
    } else {
        last_wild(groups.drop_last())
    }
}

/// The effective crawl delay for an agent: the delay of the first group
/// matching the agent exactly (case-insensitively), else the delay of the
/// last wildcard group, else none.
pub open spec fn crawl_delay_of(body: Seq<char>, agent: Seq<char>) -> Option<u64> {
    let gs = robots_groups(body);
    match first_exact(gs, lower(agent)) {
        Some(i) => gs[i].delay,
        None => match last_wild(gs) {
            Some(j) => gs[j].delay,
            None => None,
        },
    }
}

proof fn lemma_first_exact(gs: Seq<RulesGroup>, agent: Seq<char>)
    ensures
        match first_exact(gs, agent) {
            Some(i) => 0 <= i < gs.len() && (#[trigger] gs[i]).agents.contains(agent) && forall|
                j: int,
            |
                0 <= j < i ==> !(#[trigger] gs[j]).agents.contains(agent),
            None => forall|j: int|
                0 <= j < gs.len() ==> !(#[trigger] gs[j]).agents.contains(agent),
        },
    decreases gs.len(),
{
    if gs.len() > 0 && !gs[0].agents.contains(agent) {
        lemma_first_exact(gs.drop_first(), agent);
        assert(forall|j: int| 1 <= j < gs.len() ==> gs[j] == gs.drop_first()[j - 1]);
    }
}

/// An agent-group buffer under construction.
pub struct GroupBuf {
    pub agents: Vec<Vec<char>>,
    pub delay: Option<u64>,
}

pub open spec fn gb_view(g: GroupBuf) -> RulesGroup {
    RulesGroup { agents: vv_view(g.agents@), delay: g.delay }
}

pub open spec fn gbs_view(gs: Seq<GroupBuf>) -> Seq<RulesGroup> {
    gs.map_values(|g: GroupBuf| gb_view(g))
}

/// Splits a robots.txt body into its agent groups.
#[verifier::loop_isolation(false)]
fn parse_groups(body: &Vec<char>) -> (r: Vec<GroupBuf>)
    ensures
        gbs_view(r@) == robots_groups(body@),
{
    let lines = split_lines(body);
    let ghost lv = lines_of(body@);
    let mut groups: Vec<GroupBuf> = Vec::new();
    let mut cur_agents: Vec<Vec<char>> = Vec::new();
    let mut cur_delay: Option<u64> = None;
    let mut saw = false;
    let mut li: usize = 0;
    proof {
        assert(lv.take(0) =~= Seq::<Seq<char>>::empty());
        assert(gbs_view(groups@) =~= Seq::<RulesGroup>::empty());
        assert(vv_view(cur_agents@) =~= Seq::<Seq<char>>::empty());
    }
    while li < lines.len()
        invariant
            0 <= li <= lines@.len(),
            vv_view(lines@) == lv,
            fold_lines(lv.take(li as int)) == (ParseState {
                groups: gbs_view(groups@),
                cur_agents: vv_view(cur_agents@),
                cur_delay,
                saw_directive: saw,
            }),
        decreases lines@.len() - li,
    {
        let ghost st0 = fold_lines(lv.take(li as int));
        let ghost line = lv[li as int];
        proof {
            assert(lv.take(li + 1).drop_last() =~= lv.take(li as int));
            assert(lv.take(li + 1).last() == lv[li as int]);
            assert(fold_lines(lv.take(li + 1)) == line_step(st0, line));
        }
        let lraw = &lines[li];
        assert(lraw@ == line);
        let pre = match find_in(lraw, '#') {
            Some(hi) => {
                proof {
                    lemma_find_char(lraw@, '#');
                    assert(lraw@.subrange(0, hi as int) =~= lraw@.take(hi as int));
                }
                sub_chars(lraw, 0, hi)
            },
            None => sub_chars(lraw, 0, lraw.len()),
        };
        proof {
            assert(lraw@.subrange(0, lraw@.len() as int) =~= lraw@);
            assert(pre@ == before_hash(line));
        }
        let cl = trim_chars(&pre);
        assert(cl@ == cleaned(line));
        if cl.len() == 0 {
            if cur_agents.len() > 0 || saw {
                let full = GroupBuf { agents: cur_agents, delay: cur_delay };
                let ghost og = groups@;
                proof {
                    assert(gb_view(full) == RulesGroup {
                        agents: st0.cur_agents,
                        delay: st0.cur_delay,
                    });
                }
                groups.push(full);
                cur_agents = Vec::new();
                cur_delay = None;
                saw = false;
                proof {
                    assert(gbs_view(groups@) =~= gbs_view(og).push(gb_view(full)));
                    assert(vv_view(cur_agents@) =~= Seq::<Seq<char>>::empty());
                    assert(fold_lines(lv.take(li + 1)) == close_group(st0));
                    assert(fold_lines(lv.take(li + 1)) == (ParseState {
                        groups: gbs_view(groups@),
                        cur_agents: vv_view(cur_agents@),
                        cur_delay,
                        saw_directive: saw,
                    }));
                }
            } else {
                assert(fold_lines(lv.take(li + 1)) == st0);
            }
        } else {
            match find_in(&cl, ':') {
                None => {
                    proof {
                        assert(line_step(st0, line) == st0);
                    }
                },
                Some(ci) => {
                    proof {
                        lemma_find_char(cl@, ':');
                        assert(cl@.subrange(0, ci as int) =~= cl@.take(ci as int));
                        assert(cl@.subrange(ci + 1, cl@.len() as int) =~= cl@.skip(ci + 1));
                    }
                    let field = lower_chars(&trim_chars(&sub_chars(&cl, 0, ci)));
                    let value = trim_chars(&sub_chars(&cl, ci + 1, cl.len()));
                    assert(field@ == lower(trim(cleaned(line).take(ci as int))));
                    assert(value@ == trim(cleaned(line).skip(ci + 1)));
                    if chars_eq(&field, &str_to_chars("user-agent")) {
                        let ghost st2 = if st0.saw_directive { close_group(st0) } else { st0 };
                        if saw {
                            let full = GroupBuf { agents: cur_agents, delay: cur_delay };
                            let ghost og = groups@;
                            proof {
                                assert(gb_view(full) == RulesGroup {
                                    agents: st0.cur_agents,
                                    delay: st0.cur_delay,
                                });
                            }
                            groups.push(full);
                            cur_agents = Vec::new();
                            cur_delay = None;
                            saw = false;
                            proof {
                                assert(gbs_view(groups@) =~= gbs_view(og).push(gb_view(full)));
                                assert(vv_view(cur_agents@) =~= Seq::<Seq<char>>::empty());
                            }
                        }
                        proof {
                            assert(st2 == (ParseState {
                                groups: gbs_view(groups@),
                                cur_agents: vv_view(cur_agents@),
                                cur_delay,
                                saw_directive: saw,
                            }));
                        }
                        let lowered = lower_chars(&value);
                        let ghost oa = cur_agents@;
                        cur_agents.push(lowered);
                        proof {
                            assert(vv_view(cur_agents@) =~= vv_view(oa).push(lowered@));
                            assert(fold_lines(lv.take(li + 1)) == (ParseState {
                                groups: gbs_view(groups@),
                                cur_agents: vv_view(cur_agents@),
                                cur_delay,
                                saw_directive: saw,
                            }));
                        }
                    } else {
                        saw = true;
                        if chars_eq(&field, &str_to_chars("crawl-delay")) {
                            match parse_delay_value(&value) {
                                Some(d) => {
                                    cur_delay = Some(d);
                                },
                                None => {},
                            }
                        }
                        assert(fold_lines(lv.take(li + 1)) == (ParseState {
                            groups: gbs_view(groups@),
                            cur_agents: vv_view(cur_agents@),
                            cur_delay,
                            saw_directive: saw,
                        }));
                    }
                },
            }
        }
        li = li + 1;
    }
    proof {
        assert(lv.take(lv.len() as int) =~= lv);
    }
    if cur_agents.len() > 0 || saw {
        let ghost stf = fold_lines(lv);
        let full = GroupBuf { agents: cur_agents, delay: cur_delay };
        proof {
            assert(gb_view(full) == RulesGroup { agents: stf.cur_agents, delay: stf.cur_delay });
        }
        groups.push(full);
        proof {
            assert(gbs_view(groups@) =~= gbs_view(groups@.drop_last()).push(gb_view(groups@.last())));
        }
    }
    groups
}

/// Whether a lowercased agent list names the target.
#[verifier::loop_isolation(false)]
fn agents_contain(agents: &Vec<Vec<char>>, target: &Vec<char>) -> (r: bool)
    ensures
        r == vv_view(agents@).contains(target@),
{
    let mut i: usize = 0;
    while i < agents.len()
        invariant
            0 <= i <= agents@.len(),
            forall|j: int| 0 <= j < i ==> vv_view(agents@)[j] != target@,
        decreases agents@.len() - i,
    {
        if chars_eq(&agents[i], target) {
            assert(vv_view(agents@)[i as int] == target@);
            return true;
        }
        i = i + 1;
    }
    proof {
        if vv_view(agents@).contains(target@) {
            let k = choose|k: int|
                0 <= k < vv_view(agents@).len() && vv_view(agents@)[k] == target@;
            assert(vv_view(agents@)[k] != target@);
        }
    }
    false
}

/// Picks the delay: first exact agent group, else last wildcard group.
#[verifier::loop_isolation(false)]
fn select_delay(groups: &Vec<GroupBuf>, agent_lc: &Vec<char>) -> (r: Option<u64>)
    ensures
        r == match first_exact(gbs_view(groups@), agent_lc@) {
            Some(i) => gbs_view(groups@)[i].delay,
            None => match last_wild(gbs_view(groups@)) {
                Some(j) => gbs_view(groups@)[j].delay,
                None => None,
            },
        },
{
    let ghost gsv = gbs_view(groups@);
    let star = str_to_chars("*");
    let mut wild: Option<u64> = None;
    let mut have_wild = false;
    let mut k: usize = 0;
    proof {
        assert(gsv.take(0) =~= Seq::<RulesGroup>::empty());
    }
    while k < groups.len()
        invariant
            0 <= k <= groups@.len(),
            gsv == gbs_view(groups@),
            star@ == "*"@,
            forall|j: int| 0 <= j < k ==> !(#[trigger] gsv[j]).agents.contains(agent_lc@),
            match last_wild(gsv.take(k as int)) {
                Some(j) => have_wild && wild == gsv[j].delay,
                None => !have_wild,
            },
        decreases groups@.len() - k,
    {
        proof {
            assert(gsv.take(k + 1).drop_last() =~= gsv.take(k as int));
            assert(gsv.take(k + 1).last() == gsv[k as int]);
        }
        if agents_contain(&groups[k].agents, agent_lc) {
            proof {
                assert(gsv[k as int].agents.contains(agent_lc@));
                lemma_first_exact(gsv, agent_lc@);
                if first_exact(gsv, agent_lc@) is Some {
                    let i0 = first_exact(gsv, agent_lc@)->0;
                    if i0 < k {
                        assert(!gsv[i0].agents.contains(agent_lc@));
                    }
                    if i0 > k {
                        assert(!gsv[k as int].agents.contains(agent_lc@));
                    }
                    assert(i0 == k);
                }
            }
            return groups[k].delay;
        }
        if agents_contain(&groups[k].agents, &star) {
            wild = groups[k].delay;
            have_wild = true;
            assert(last_wild(gsv.take(k + 1)) == Some(k as int));
        } else {
            assert(last_wild(gsv.take(k + 1)) == last_wild(gsv.take(k as int)));
        }
        k = k + 1;
    }
    proof {
        assert(gsv.take(gsv.len() as int) =~= gsv);
        lemma_first_exact(gsv, agent_lc@);
        if first_exact(gsv, agent_lc@) is Some {
            let i0 = first_exact(gsv, agent_lc@)->0;
            assert(!gsv[i0].agents.contains(agent_lc@));
        }
    }
    if have_wild {
        wild
    } else {
        None
    }
}

/// The crawl delay a robots.txt body imposes on the agent, in whole
/// milliseconds, exactly as `crawl_delay_of` describes.
pub fn parse_crawl_delay(body: &str, user_agent: &str) -> (r: Option<u64>)
    ensures
        r == crawl_delay_of(body@, user_agent@),
{
    let bv = str_to_chars(body);
    let groups = parse_groups(&bv);
    let agent_lc = lower_chars(&str_to_chars(user_agent));
    select_delay(&groups, &agent_lc)
}

/// What the politeness engine remembers of one host's robots.txt.
#[derive(Debug, Clone)]
pub struct RobotsRules {
    pub allowed: bool,
    pub crawl_delay_ms: Option<u64>,
}

/// The UTF-8 encoded length of one character.
pub open spec fn utf8_len(c: char) -> int {
    if (c as u32) < 0x80 {
        1
    } else if (c as u32) < 0x800 {
        2
    } else if (c as u32) < 0x10000 {
        3
    } else {
        4
    }
}

fn char_utf8_len(c: char) -> (r: u64)
    ensures
        r as int == utf8_len(c),
{
    if (c as u32) < 0x80 {
        1
    } else if (c as u32) < 0x800 {
        2
    } else if (c as u32) < 0x10000 {
        3
    } else {
        4
    }
}

/// The robots matcher reads its input line by line and keeps at most this
/// many bytes of each line.
pub open spec fn robots_line_limit() -> int {
    2083 * 8 - 1
}

/// The matcher treats both of these as line ends.
pub open spec fn is_line_break(c: char) -> bool {
    c == '\n' || c == '\r'
}

/// Folds a body into (longest line's byte length, current line's byte
/// length), lines cut at either line-break character.
pub open spec fn line_bytes_fold(s: Seq<char>) -> (int, int)
    decreases s.len(),
{
    if s.len() == 0 {
        (0int, 0int)
    } else {
        let acc = line_bytes_fold(s.drop_last());
        let c = s.last();
        if is_line_break(c) {
            (acc.0, 0int)
        } else {
            let cur = acc.1 + utf8_len(c);
            (vstd::math::max(acc.0, cur), cur)
        }
    }
}

/// Every line of the body stays within the matcher's per-line byte cap.
pub open spec fn robots_body_safe(s: Seq<char>) -> bool {
    line_bytes_fold(s).0 <= robots_line_limit()
}

proof fn lemma_line_bytes_fold(s: Seq<char>)
    ensures
        0 <= line_bytes_fold(s).1 <= line_bytes_fold(s).0,
        s.len() > 0 ==> line_bytes_fold(s.drop_last()).0 <= line_bytes_fold(s).0,
    decreases s.len(),
{
    if s.len() > 0 {
        lemma_line_bytes_fold(s.drop_last());
    }
}

/// Folds a body into its clipped form: characters that would push a line
/// past the byte cap are dropped, up to that line's end.
pub open spec fn clip_fold(s: Seq<char>) -> (Seq<char>, int)
    decreases s.len(),
{
    if s.len() == 0 {
        (Seq::<char>::empty(), 0int)
    } else {
        let acc = clip_fold(s.drop_last());
        let c = s.last();
        if is_line_break(c) {
            (acc.0.push(c), 0int)
        } else if acc.1 + utf8_len(c) <= robots_line_limit() {
            (acc.0.push(c), acc.1 + utf8_len(c))
        } else {
            (acc.0, robots_line_limit() + 1)
        }
    }
}

/// The body with every line cut down to the matcher's byte cap.
pub open spec fn clipped_robots(s: Seq<char>) -> Seq<char> {
    clip_fold(s).0
}

/// Clipping yields a safe body.
proof fn lemma_clip_safe(s: Seq<char>)
    ensures
        robots_body_safe(clip_fold(s).0),
        line_bytes_fold(clip_fold(s).0).1 <= vstd::math::min(clip_fold(s).1, robots_line_limit()),
    decreases s.len(),
{
    if s.len() > 0 {
        lemma_clip_safe(s.drop_last());
        let acc = clip_fold(s.drop_last());
        let c = s.last();
        if is_line_break(c) {
            assert(clip_fold(s).0.drop_last() =~= acc.0);
        } else if acc.1 + utf8_len(c) <= robots_line_limit() {
            assert(clip_fold(s).0.drop_last() =~= acc.0);
        }
    }
}

/// A body already within the cap is left exactly as it is.
proof fn lemma_clip_id(s: Seq<char>)
    requires
        robots_body_safe(s),
    ensures
        clip_fold(s).0 == s,
        clip_fold(s).1 == line_bytes_fold(s).1,
    decreases s.len(),
{
    if s.len() == 0 {
        assert(clip_fold(s).0 =~= s);
    } else {
        lemma_line_bytes_fold(s);
        lemma_line_bytes_fold(s.drop_last());
        lemma_clip_id(s.drop_last());
        assert(s.drop_last().push(s.last()) =~= s);
    }
}

/// Cuts every line of a robots.txt body down to the matcher's per-line
/// byte cap; bodies already within the cap come back unchanged.
#[verifier::loop_isolation(false)]
fn clip_robots_body(body: &str) -> (r: String)
    ensures
        r@ == clipped_robots(body@),
        robots_body_safe(r@),
        robots_body_safe(body@) ==> r@ == body@,
{
    let v = str_to_chars(body);
    let mut out: Vec<char> = Vec::new();
    let mut cur: u64 = 0;
    let mut i: usize = 0;
    while i < v.len()
        invariant
            0 <= i <= v@.len(),
            v@ == body@,
            (out@, cur as int) == clip_fold(v@.take(i as int)),
            cur <= robots_line_limit() + 1,
        decreases v@.len() - i,
    {
        let c = v[i];
        proof {
            assert(v@.take(i + 1).drop_last() =~= v@.take(i as int));
            assert(v@.take(i + 1).last() == v@[i as int]);
        }
        if c == '\n' || c == '\r' {
            out.push(c);
            cur = 0;
        } else {
            let step = char_utf8_len(c);
            if cur + step <= 16663 {
                out.push(c);
                cur = cur + step;
            } else {
                cur = 16664;
            }
        }
        i = i + 1;
    }
    proof {
        assert(v@.take(v@.len() as int) =~= v@);
        lemma_clip_safe(v@);
        if robots_body_safe(v@) {
            lemma_clip_id(v@);
        }
    }
    crate::text::chars_to_string(&out)
}

/// Whether the rules in `body` allow `agent` to fetch `url`: a pure
/// function of the three strings, computed by the robots matcher.
pub uninterp spec fn robots_allowed(body: Seq<char>, agent: Seq<char>, url: Seq<char>) -> bool;

/// Relies on robotstxt's `RobotsMatcher::one_agent_allowed_by_robots` for
/// the allow/disallow decision on a fetched robots.txt body. The matcher
/// caps each line at `robots_line_limit` bytes but counts the overflow in
/// characters while advancing byte offsets, so on a line past the cap with
/// multi-byte characters in the excess it can slice mid-character and
/// panic; the precondition keeps every line within the cap, where offsets
/// stay exact.
#[verifier::external_body]
fn robots_allowed_by(body: &str, agent: &str, url: &str) -> (r: bool)
    requires
        robots_body_safe(body@),
    ensures
        r == robots_allowed(body@, agent@, url@),
{
    let mut matcher = robotstxt::DefaultMatcher::default();
    matcher.one_agent_allowed_by_robots(body, agent, url)
}

/// Best-effort robots evaluation: a missing or failed robots.txt fetch
/// allows everything and imposes no crawl delay. A fetched body is read
/// for the allow decision with its lines clipped to the matcher's byte cap
/// first — ordinary bodies pass through unchanged — and for the crawl
/// delay by this crate's own parser, which needs no cap.
pub fn evaluate_robots(fetched: Option<&str>, agent: &str, url: &str) -> (r: RobotsRules)
    ensures
        match fetched {
            None => r.allowed && r.crawl_delay_ms is None,
            Some(b) => {
                &&& r.allowed == robots_allowed(clipped_robots(b@), agent@, url@)
                &&& robots_body_safe(b@) ==> r.allowed == robots_allowed(b@, agent@, url@)
                &&& r.crawl_delay_ms == crawl_delay_of(b@, agent@)
            },
        },
{
    match fetched {
        None => RobotsRules { allowed: true, crawl_delay_ms: None },
        Some(body) => {
            let clipped = clip_robots_body(body);
            RobotsRules {
                allowed: robots_allowed_by(clipped.as_str(), agent, url),
                crawl_delay_ms: parse_crawl_delay(body, agent),
            }
        },
    }
}

/// Short digit runs have small values.
proof fn lemma_digits_small(s: Seq<char>)
    requires
        all_digits(s),
        s.len() <= 3,
    ensures
        s.len() == 0 ==> digits_val(s) == 0,
        s.len() == 1 ==> 0 <= digits_val(s) < 10,
        s.len() == 2 ==> 0 <= digits_val(s) < 100,
        s.len() == 3 ==> 0 <= digits_val(s) < 1000,
    decreases s.len(),
{
    if s.len() > 0 {
        assert(all_digits(s.drop_last()));
        lemma_digits_small(s.drop_last());
        assert(0 <= crate::text::digit_val(s.last()) <= 9);
    }
}

} // verus!


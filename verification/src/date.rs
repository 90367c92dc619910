//! Civil-calendar dates in `YYYYMMDD` form, and date-range enumeration for
//! the backfill driver.

use vstd::prelude::*;
use crate::text::{all_digits, dec_str, digits_val, is_digit, str_to_chars, u64_to_chars};

verus! {

/// A calendar date. The four-digit date format bounds the year.
#[derive(Debug, Clone, Copy, PartialEq, Eq, Structural)]
pub struct Date {
    pub year: i32,
    pub month: i32,
    pub day: i32,
}

pub open spec fn is_leap(y: int) -> bool {
    y % 4 == 0 && (y % 100 != 0 || y % 400 == 0)
}

pub open spec fn days_in_month(y: int, m: int) -> int {
    if m == 2 {
        if is_leap(y) {
            29
        } else {
            28
        }
    } else if m == 4 || m == 6 || m == 9 || m == 11 {
        30
    } else {
        31
    }
}

pub open spec fn valid_date(d: Date) -> bool {
    &&& 0 <= d.year <= 9999
    &&& 1 <= d.month <= 12
    &&& 1 <= d.day <= days_in_month(d.year as int, d.month as int)
}

/// The day after `d` (with the last representable day mapping into year
/// ten thousand, which `valid_date` rules out of further stepping).
pub open spec fn next_date(d: Date) -> Date {
    if d.day < days_in_month(d.year as int, d.month as int) {
        Date { year: d.year, month: d.month, day: (d.day + 1) as i32 }
    } else if d.month < 12 {
        Date { year: d.year, month: (d.month + 1) as i32, day: 1 }
    } else {
        Date { year: (d.year + 1) as i32, month: 1, day: 1 }
    }
}

/// Chronological order on dates, lexicographic on (year, month, day).
pub open spec fn date_le(a: Date, b: Date) -> bool {
    a.year < b.year || (a.year == b.year && (a.month < b.month || (a.month == b.month && a.day
        <= b.day)))
}

/// A strictly monotone integer measure of a date.
pub open spec fn date_ord(d: Date) -> int {
    d.year * 600 + d.month * 40 + d.day
}

pub proof fn lemma_next_date(d: Date)
    requires
        valid_date(d),
    ensures
        date_ord(next_date(d)) > date_ord(d),
        d.year < 9999 || d.month < 12 || d.day < 31 ==> valid_date(next_date(d)),
        !date_le(next_date(d), d),
{
}

pub proof fn lemma_date_le_ord(a: Date, b: Date)
    requires
        valid_date(a),
        valid_date(b),
        date_le(a, b),
    ensures
        date_ord(a) <= date_ord(b),
{
}

/// Four digits of `n < 10000`, zero-padded.
pub open spec fn pad4(n: int) -> Seq<char> {
    if n < 10 {
        seq!['0', '0', '0'] + dec_str(n)
    } else if n < 100 {
        seq!['0', '0'] + dec_str(n)
    } else if n < 1000 {
        seq!['0'] + dec_str(n)
    } else {
        dec_str(n)
    }
}

/// Two digits of `n < 100`, zero-padded.
pub open spec fn pad2(n: int) -> Seq<char> {
    if n < 10 {
        seq!['0'] + dec_str(n)
    } else {
        dec_str(n)
    }
}

/// The `YYYYMMDD` rendering of a date.
pub open spec fn date_str(d: Date) -> Seq<char> {
    pad4(d.year as int) + pad2(d.month as int) + pad2(d.day as int)
}

/// Renders a date as `YYYYMMDD`.
pub fn format_yyyymmdd(d: &Date) -> (r: String)
    requires
        valid_date(*d),
    ensures
        r@ == date_str(*d),
{
    let mut out: Vec<char> = Vec::new();
    if d.year < 10 {
        out.push('0');
        out.push('0');
        out.push('0');
    } else if d.year < 100 {
        out.push('0');
        out.push('0');
    } else if d.year < 1000 {
        out.push('0');
    }
    let mut y = u64_to_chars(d.year as u64);
    out.append(&mut y);
    assert(out@ =~= pad4(d.year as int));
    if d.month < 10 {
        out.push('0');
    }
    let mut m = u64_to_chars(d.month as u64);
    out.append(&mut m);
    assert(out@ =~= pad4(d.year as int) + pad2(d.month as int));
    if d.day < 10 {
        out.push('0');
    }
    let mut dd = u64_to_chars(d.day as u64);
    out.append(&mut dd);
    assert(out@ =~= date_str(*d));
    crate::text::chars_to_string(&out)
}

proof fn lemma_digits_val_small3(s: Seq<char>)
    requires
        all_digits(s),
        s.len() <= 4,
    ensures
        s.len() <= 1 ==> digits_val(s) < 10,
        s.len() <= 2 ==> digits_val(s) < 100,
        s.len() <= 3 ==> digits_val(s) < 1000,
        s.len() <= 4 ==> digits_val(s) < 10000,
        digits_val(s) >= 0,
    decreases s.len(),
{
    if s.len() > 0 {
        assert(all_digits(s.drop_last()));
        lemma_digits_val_small3(s.drop_last());
        assert(0 <= crate::text::digit_val(s.last()) <= 9);
    }
}

/// The value of up to four digit characters of `v[from..to]`, if they are
/// all digits.
fn read_digits(v: &Vec<char>, from: usize, to: usize) -> (r: Option<u32>)
    requires
        0 <= from <= to <= v@.len(),
        to - from <= 4,
    ensures
        (r is Some) == all_digits(v@.subrange(from as int, to as int)),
        r matches Some(x) ==> x as int == digits_val(v@.subrange(from as int, to as int)),
{
    let ghost t = v@.subrange(from as int, to as int);
    let mut acc: u32 = 0;
    let mut i: usize = from;
    while i < to
        invariant
            from <= i <= to,
            to - from <= 4,
            to <= v@.len(),
            t == v@.subrange(from as int, to as int),
            all_digits(v@.subrange(from as int, i as int)),
            acc as int == digits_val(v@.subrange(from as int, i as int)),
            acc < 10000,
        decreases to - i,
    {
        let c = v[i];
        if !('0' <= c && c <= '9') {
            assert(!all_digits(t)) by {
                assert(t[i - from] == c);
            }
            return None;
        }
        let d = (c as u8) - 48;
        let ghost p = v@.subrange(from as int, i as int);
        let ghost q = v@.subrange(from as int, i + 1);
        proof {
            assert(q.drop_last() =~= p);
            assert(q.last() == c);
            lemma_digits_val_small3(q);
        }
        acc = acc * 10 + (d as u32);
        i = i + 1;
    }
    proof {
        assert(v@.subrange(from as int, to as int) =~= t);
    }
    Some(acc)
}

/// Whether eight characters spell a real calendar date, and which.
pub open spec fn date_of_str(s: Seq<char>) -> Option<Date> {
    if s.len() == 8 && all_digits(s) {
        let d = Date {
            year: digits_val(s.subrange(0, 4)) as i32,
            month: digits_val(s.subrange(4, 6)) as i32,
            day: digits_val(s.subrange(6, 8)) as i32,
        };
        if valid_date(d) {
            Some(d)
        } else {
            None
        }
    } else {
        None
    }
}

/// Reads a `YYYYMMDD` date, rejecting anything that is not a real
/// calendar day.
pub fn parse_yyyymmdd(s: &str) -> (r: Option<Date>)
    ensures
        r == date_of_str(s@),
{
    let v = str_to_chars(s);
    if v.len() != 8 {
        return None;
    }
    let y = read_digits(&v, 0, 4);
    let m = read_digits(&v, 4, 6);
    let d = read_digits(&v, 6, 8);
    match (y, m, d) {
        (Some(y), Some(m), Some(d)) => {
            proof {
                assert forall|i: int| 0 <= i < v@.len() implies is_digit(#[trigger] v@[i]) by {
                    if i < 4 {
                        assert(v@.subrange(0, 4)[i] == v@[i]);
                        assert(is_digit(v@.subrange(0, 4)[i]));
                    } else if i < 6 {
                        assert(v@.subrange(4, 6)[i - 4] == v@[i]);
                        assert(is_digit(v@.subrange(4, 6)[i - 4]));
                    } else {
                        assert(v@.subrange(6, 8)[i - 6] == v@[i]);
                        assert(is_digit(v@.subrange(6, 8)[i - 6]));
                    }
                }
                assert(all_digits(v@));
                lemma_digits_val_small3(v@.subrange(0, 4));
                lemma_digits_val_small3(v@.subrange(4, 6));
                lemma_digits_val_small3(v@.subrange(6, 8));
            }
            let date = Date { year: y as i32, month: m as i32, day: d as i32 };
            let dim = days_in_month_exec(date.year, date.month);
            if 1 <= date.month && date.month <= 12 && 1 <= date.day && date.day <= dim {
                Some(date)
            } else {
                None
            }
        },
        _ => {
            proof {
                if all_digits(v@) {
                    assert(all_digits(v@.subrange(0, 4))) by {
                        assert(forall|j: int|
                            0 <= j < 4 ==> #[trigger] v@.subrange(0, 4)[j] == v@[j]);
                    }
                    assert(all_digits(v@.subrange(4, 6))) by {
                        assert(forall|j: int|
                            0 <= j < 2 ==> #[trigger] v@.subrange(4, 6)[j] == v@[j + 4]);
                    }
                    assert(all_digits(v@.subrange(6, 8))) by {
                        assert(forall|j: int|
                            0 <= j < 2 ==> #[trigger] v@.subrange(6, 8)[j] == v@[j + 6]);
                    }
                }
            }
            None
        },
    }
}

fn days_in_month_exec(y: i32, m: i32) -> (r: i32)
    requires
        y >= 0,
    ensures
        r as int == days_in_month(y as int, m as int),
{
    if m == 2 {
        if y % 4 == 0 && (y % 100 != 0 || y % 400 == 0) {
            29
        } else {
            28
        }
    } else if m == 4 || m == 6 || m == 9 || m == 11 {
        30
    } else {
        31
    }
}

/// The day after `d`.
pub fn next_day(d: &Date) -> (r: Date)
    requires
        valid_date(*d),
    ensures
        r == next_date(*d),
{
    let dim = days_in_month_exec(d.year, d.month);
    if d.day < dim {
        Date { year: d.year, month: d.month, day: d.day + 1 }
    } else if d.month < 12 {
        Date { year: d.year, month: d.month + 1, day: 1 }
    } else {
        Date { year: d.year + 1, month: 1, day: 1 }
    }
}

/// Every date from `a` through `b` inclusive, rendered `YYYYMMDD`.
pub open spec fn date_range(a: Date, b: Date) -> Seq<Seq<char>>
    decreases vstd::math::max(date_ord(b) - date_ord(a) + 1, 0),
    via date_range_decreases
{
    if valid_date(a) && valid_date(b) && date_le(a, b) {
        seq![date_str(a)] + date_range(next_date(a), b)
    } else {
        Seq::<Seq<char>>::empty()
    }
}

#[via_fn]
proof fn date_range_decreases(a: Date, b: Date) {
    if valid_date(a) && valid_date(b) && date_le(a, b) {
        lemma_next_date(a);
        lemma_date_le_ord(a, b);
    }
}

/// Why a date range request failed.
#[derive(Debug, PartialEq, Eq)]
pub enum DateRangeError {
    /// This argument is not a `YYYYMMDD` calendar date.
    Invalid(String),
    /// The end date precedes the start date.
    EndBeforeStart,
}

/// The dates a backfill should visit: a single date passes through as
/// given; otherwise an inclusive range is enumerated, and a missing bound
/// means nothing to do.
#[verifier::loop_isolation(false)]
pub fn collect_dates(
    single_date: Option<String>,
    start_date: Option<String>,
    end_date: Option<String>,
) -> (r: Result<Vec<String>, DateRangeError>)
    ensures
        match single_date {
            Some(d) => r matches Ok(v) && v@.len() == 1 && v@[0]@ == d@,
            None => match start_date {
                None => (r matches Ok(v) && v@.len() == 0),
                Some(s) => match date_of_str(s@) {
                    None => r == Result::<Vec<String>, DateRangeError>::Err(
                        DateRangeError::Invalid(s),
                    ),
                    Some(a) => match end_date {
                        None => (r matches Ok(v) && v@.len() == 0),
                        Some(e) => match date_of_str(e@) {
                            None => r == Result::<Vec<String>, DateRangeError>::Err(
                                DateRangeError::Invalid(e),
                            ),
                            Some(b) => {
                                if !date_le(a, b) {
                                    r == Result::<Vec<String>, DateRangeError>::Err(
                                        DateRangeError::EndBeforeStart,
                                    )
                                } else {
                                    (r matches Ok(v) && v@.len() == date_range(a, b).len()
                                        && forall|i: int|
                                        0 <= i < v@.len() ==> (#[trigger] v@[i])@ == date_range(
                                            a,
                                            b,
                                        )[i])
                                }
                            },
                        },
                    },
                },
            },
        },
{
    if let Some(d) = single_date {
        let mut out: Vec<String> = Vec::new();
        out.push(d);
        return Ok(out);
    }
    let start = match start_date {
        Some(s) => match parse_yyyymmdd(s.as_str()) {
            Some(a) => a,
            None => {
                return Err(DateRangeError::Invalid(s));
            },
        },
        None => {
            return Ok(Vec::new());
        },
    };
    let end = match end_date {
        Some(e) => match parse_yyyymmdd(e.as_str()) {
            Some(b) => b,
            None => {
                return Err(DateRangeError::Invalid(e));
            },
        },
        None => {
            return Ok(Vec::new());
        },
    };
    let le = start.year < end.year || (start.year == end.year && (start.month < end.month || (
    start.month == end.month && start.day <= end.day)));
    if !le {
        return Err(DateRangeError::EndBeforeStart);
    }
    let mut out: Vec<String> = Vec::new();
    let mut cur = start;
    let mut done = false;
    while !done
        invariant
            valid_date(cur),
            date_range(start, end).len() == out@.len() + if done {
                0int
            } else {
                date_range(cur, end).len() as int
            },
            forall|i: int|
                0 <= i < out@.len() ==> (#[trigger] out@[i])@ == date_range(start, end)[i],
            !done ==> forall|i: int|
                0 <= i < date_range(cur, end).len() ==> #[trigger] date_range(cur, end)[i]
                    == date_range(start, end)[out@.len() + i],
            done ==> out@.len() == date_range(start, end).len(),
        decreases (if done {
            0int
        } else if date_le(cur, end) {
            date_ord(end) - date_ord(cur) + 2
        } else {
            1int
        }),
    {
        let cur_le = cur.year < end.year || (cur.year == end.year && (cur.month < end.month || (
        cur.month == end.month && cur.day <= end.day)));
        if !cur_le {
            assert(date_range(cur, end).len() == 0);
            done = true;
        } else {
            proof {
                lemma_date_le_ord(cur, end);
                lemma_next_date(cur);
            }
            assert(date_range(cur, end) == seq![date_str(cur)] + date_range(next_date(cur), end));
            let ghost l0 = out@.len() as int;
            out.push(format_yyyymmdd(&cur));
            proof {
                assert(out@[l0]@ == date_range(start, end)[l0]) by {
                    assert(date_range(cur, end)[0] == date_str(cur));
                }
                assert forall|i: int| 0 <= i < date_range(next_date(cur), end).len()
                    implies #[trigger] date_range(next_date(cur), end)[i] == date_range(
                    start,
                    end,
                )[out@.len() + i] by {
                    assert(date_range(cur, end)[i + 1] == date_range(next_date(cur), end)[i]);
                    assert(date_range(cur, end)[i + 1] == date_range(start, end)[l0 + i + 1]);
                    assert(out@.len() + i == l0 + i + 1);
                }
            }
            let next = next_day(&cur);
            if next.year > 9999 {
                assert(!valid_date(next));
                assert(date_range(next, end).len() == 0);
                done = true;
            } else {
                proof {
                    lemma_next_date(cur);
                }
                cur = next;
            }
        }
    }
    Ok(out)
}

} // verus!

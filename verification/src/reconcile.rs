//! Cross-source reconciliation: compares two groupings of the same metric
//! and counts the rows that disagree beyond a fixed tolerance.
//!
//! Metric values arrive in fixed-point units (the caller picks the scale);
//! a field the source did not track compares as zero, and a row present on
//! only one side always counts as a mismatch — that is this crate's
//! explicit absence policy.

use vstd::prelude::*;
use vstd::math::abs;

verus! {

/// One row of a metric grouping: a two-part integer key and the compared
/// fields, in order, in fixed-point units.
pub struct MetricRow {
    pub key_a: i64,
    pub key_b: i64,
    pub values: Vec<Option<i64>>,
}

/// Field `i` of a row, with missing fields reading as zero.
pub open spec fn field_at(r: &MetricRow, i: int) -> int {
    if 0 <= i < r.values@.len() {
        match r.values@[i] {
            Some(v) => v as int,
            None => 0,
        }
    } else {
        0
    }
}

/// Rows disagree when any compared field differs by more than `eps`.
pub open spec fn rows_differ(a: &MetricRow, b: &MetricRow, eps: int) -> bool {
    exists|i: int|
        0 <= i < vstd::math::max(a.values@.len() as int, b.values@.len() as int) && abs(
            field_at(a, i) - field_at(b, i),
        ) > eps
}

/// A difference of exactly the tolerance is accepted; any field beyond the
/// tolerance flags the pair.
pub proof fn lemma_tolerance(a: &MetricRow, b: &MetricRow, eps: int)
    requires
        eps >= 0,
    ensures
        (forall|i: int| abs(#[trigger] field_at(a, i) - field_at(b, i)) <= eps) ==> !rows_differ(
            a,
            b,
            eps,
        ),
        (exists|i: int| abs(#[trigger] field_at(a, i) - field_at(b, i)) > eps) ==> rows_differ(
            a,
            b,
            eps,
        ),
{
    if exists|i: int| abs(#[trigger] field_at(a, i) - field_at(b, i)) > eps {
        let i = choose|i: int| abs(#[trigger] field_at(a, i) - field_at(b, i)) > eps;
        assert(0 <= i < vstd::math::max(a.values@.len() as int, b.values@.len() as int)) by {
            if !(0 <= i < vstd::math::max(a.values@.len() as int, b.values@.len() as int)) {
                assert(field_at(a, i) == 0 && field_at(b, i) == 0);
            }
        }
    }
}

fn rows_differ_exec(a: &MetricRow, b: &MetricRow, eps: i64) -> (r: bool)
    ensures
        r == rows_differ(a, b, eps as int),
{
    let n = if a.values.len() >= b.values.len() {
        a.values.len()
    } else {
        b.values.len()
    };
    let mut i: usize = 0;
    while i < n
        invariant
            0 <= i <= n,
            n as int == vstd::math::max(a.values@.len() as int, b.values@.len() as int),
            forall|j: int| 0 <= j < i ==> abs(field_at(a, j) - field_at(b, j)) <= eps,
        decreases n - i,
    {
        let va: i128 = if i < a.values.len() {
            match a.values[i] {
                Some(v) => v as i128,
                None => 0,
            }
        } else {
            0
        };
        let vb: i128 = if i < b.values.len() {
            match b.values[i] {
                Some(v) => v as i128,
                None => 0,
            }
        } else {
            0
        };
        assert(va as int == field_at(a, i as int));
        assert(vb as int == field_at(b, i as int));
        let diff = va - vb;
        if diff > eps as i128 || diff < -(eps as i128) {
            return true;
        }
        i = i + 1;
    }
    false
}

pub open spec fn same_key(a: &MetricRow, ka: i64, kb: i64) -> bool {
    a.key_a == ka && a.key_b == kb
}

/// The first row carrying the given key, scanning in order.
pub open spec fn find_row(rows: Seq<MetricRow>, ka: i64, kb: i64) -> Option<MetricRow>
    decreases rows.len(),
{
    if rows.len() == 0 {
        None
    } else if same_key(&rows[0], ka, kb) {
        Some(rows[0])
    } else {
        find_row(rows.drop_first(), ka, kb)
    }
}

proof fn lemma_find_row(rows: Seq<MetricRow>, ka: i64, kb: i64)
    ensures
        match find_row(rows, ka, kb) {
            Some(r) => exists|i: int|
                0 <= i < rows.len() && same_key(&rows[i], ka, kb) && r == rows[i] && forall|j: int|
                    0 <= j < i ==> !same_key(&rows[j], ka, kb),
            None => forall|j: int| 0 <= j < rows.len() ==> !same_key(&rows[j], ka, kb),
        },
    decreases rows.len(),
{
    if rows.len() > 0 && !same_key(&rows[0], ka, kb) {
        lemma_find_row(rows.drop_first(), ka, kb);
        assert(forall|j: int| 1 <= j < rows.len() ==> rows[j] == rows.drop_first()[j - 1]);
        if find_row(rows, ka, kb) is Some {
            let i0 = choose|i0: int|
                0 <= i0 < rows.drop_first().len() && same_key(&rows.drop_first()[i0], ka, kb)
                    && find_row(rows, ka, kb)->0 == rows.drop_first()[i0] && forall|j: int|
                    0 <= j < i0 ==> !same_key(&rows.drop_first()[j], ka, kb);
            assert(same_key(&rows[i0 + 1], ka, kb));
            assert(forall|j: int| 0 <= j < i0 + 1 ==> !same_key(&rows[j], ka, kb));
        }
    }
}

#[verifier::loop_isolation(false)]
fn find_row_exec<'a>(rows: &'a Vec<MetricRow>, ka: i64, kb: i64) -> (r: Option<&'a MetricRow>)
    ensures
        match r {
            Some(row) => find_row(rows@, ka, kb) == Some(*row),
            None => find_row(rows@, ka, kb) is None,
        },
{
    proof {
        lemma_find_row(rows@, ka, kb);
    }
    let mut i: usize = 0;
    while i < rows.len()
        invariant
            0 <= i <= rows@.len(),
            forall|j: int| 0 <= j < i ==> !same_key(&rows@[j], ka, kb),
        decreases rows@.len() - i,
    {
        if rows[i].key_a == ka && rows[i].key_b == kb {
            proof {
                lemma_find_row(rows@, ka, kb);
                if find_row(rows@, ka, kb) is Some {
                    let k = choose|k: int|
                        0 <= k < rows@.len() && same_key(&rows@[k], ka, kb) && find_row(
                            rows@,
                            ka,
                            kb,
                        )->0 == rows@[k] && forall|j: int|
                            0 <= j < k ==> !same_key(&rows@[j], ka, kb);
                    if k < i {
                        assert(!same_key(&rows@[k], ka, kb));
                    }
                    if k > i {
                        assert(!same_key(&rows@[i as int], ka, kb));
                    }
                    assert(k == i);
                }
            }
            return Some(&rows[i]);
        }
        i = i + 1;
    }
    None
}

/// A left row counts against the comparison when the right side has no
/// counterpart or the counterpart disagrees beyond the tolerance.
pub open spec fn left_row_flagged(right: Seq<MetricRow>, eps: int, row: &MetricRow) -> bool {
    match find_row(right, row.key_a, row.key_b) {
        None => true,
        Some(r) => rows_differ(row, &r, eps),
    }
}

pub open spec fn count_left_flagged(left: Seq<MetricRow>, right: Seq<MetricRow>, eps: int) -> int
    decreases left.len(),
{
    if left.len() == 0 {
        0
    } else {
        count_left_flagged(left.drop_last(), right, eps) + if left_row_flagged(
            right,
            eps,
            &left.last(),
        ) {
            1int
        } else {
            0int
        }
    }
}

pub open spec fn count_right_only(right: Seq<MetricRow>, left: Seq<MetricRow>) -> int
    decreases right.len(),
{
    if right.len() == 0 {
        0
    } else {
        count_right_only(right.drop_last(), left) + if find_row(
            left,
            right.last().key_a,
            right.last().key_b,
        ) is None {
            1int
        } else {
            0int
        }
    }
}

/// The full-outer-join mismatch count of one check.
pub open spec fn mismatch_count(left: Seq<MetricRow>, right: Seq<MetricRow>, eps: int) -> int {
    count_left_flagged(left, right, eps) + count_right_only(right, left)
}

/// Counts rows where either side misses its counterpart or any compared
/// field differs by more than `eps`. Sides are keyed groupings; a key is
/// expected to occur once per side, and only the first occurrence is
/// compared.
#[verifier::loop_isolation(false)]
pub fn count_mismatches(left: &Vec<MetricRow>, right: &Vec<MetricRow>, eps: i64) -> (r: u64)
    requires
        left@.len() + right@.len() <= u64::MAX,
    ensures
        r as int == mismatch_count(left@, right@, eps as int),
{
    let mut count: u64 = 0;
    let mut i: usize = 0;
    while i < left.len()
        invariant
            0 <= i <= left@.len(),
            count as int == count_left_flagged(left@.take(i as int), right@, eps as int),
            count <= i,
        decreases left@.len() - i,
    {
        let row = &left[i];
        proof {
            assert(left@.take(i + 1).drop_last() =~= left@.take(i as int));
            assert(left@.take(i + 1).last() == left@[i as int]);
        }
        let flagged = match find_row_exec(right, row.key_a, row.key_b) {
            None => true,
            Some(other) => rows_differ_exec(row, other, eps),
        };
        if flagged {
            count = count + 1;
        }
        i = i + 1;
    }
    assert(left@.take(left@.len() as int) =~= left@);
    let mut j: usize = 0;
    while j < right.len()
        invariant
            0 <= j <= right@.len(),
            count as int == count_left_flagged(left@, right@, eps as int) + count_right_only(
                right@.take(j as int),
                left@,
            ),
            count <= left@.len() + j,
        decreases right@.len() - j,
    {
        let row = &right[j];
        proof {
            assert(right@.take(j + 1).drop_last() =~= right@.take(j as int));
            assert(right@.take(j + 1).last() == right@[j as int]);
        }
        if find_row_exec(left, row.key_a, row.key_b).is_none() {
            count = count + 1;
        }
        j = j + 1;
    }
    assert(right@.take(right@.len() as int) =~= right@);
    count
}

/// The outcome of one named check.
pub struct CheckResult {
    pub id: String,
    pub mismatches: u64,
}

/// The aggregate outcome over the named checks.
pub struct ValidationOutcome {
    pub passed: bool,
    pub failing_ids: Vec<String>,
}

/// The ids of the checks with a nonzero mismatch count, in order.
pub open spec fn failing_of(results: Seq<CheckResult>) -> Seq<Seq<char>>
    decreases results.len(),
{
    if results.len() == 0 {
        Seq::<Seq<char>>::empty()
    } else {
        let prefix = failing_of(results.drop_last());
        if results.last().mismatches > 0 {
            prefix.push(results.last().id@)
        } else {
            prefix
        }
    }
}

#[verifier::loop_isolation(false)]
pub fn summarize_checks(results: &Vec<CheckResult>) -> (r: ValidationOutcome)
    ensures
        r.failing_ids@.len() == failing_of(results@).len(),
        forall|i: int|
            0 <= i < r.failing_ids@.len() ==> (#[trigger] r.failing_ids@[i])@ == failing_of(
                results@,
            )[i],
        r.passed == (failing_of(results@).len() == 0),
{
    let mut failing: Vec<String> = Vec::new();
    let mut i: usize = 0;
    while i < results.len()
        invariant
            0 <= i <= results@.len(),
            failing@.len() == failing_of(results@.take(i as int)).len(),
            forall|k: int|
                0 <= k < failing@.len() ==> (#[trigger] failing@[k])@ == failing_of(
                    results@.take(i as int),
                )[k],
        decreases results@.len() - i,
    {
        proof {
            assert(results@.take(i + 1).drop_last() =~= results@.take(i as int));
            assert(results@.take(i + 1).last() == results@[i as int]);
        }
        if results[i].mismatches > 0 {
            failing.push(results[i].id.clone());
        }
        i = i + 1;
    }
    assert(results@.take(results@.len() as int) =~= results@);
    let passed = failing.len() == 0;
    ValidationOutcome { passed, failing_ids: failing }
}

} // verus!

use itertools::Itertools;
use vstd::prelude::*;

use crate::calendar::{calendar_day, day_of, MAX_DAY, MIN_DAY};
use crate::series::{empty_series, push_item, weather_items, RawPoint, WeatherData, WeatherDataVec};

verus! {

// ---------------------------------------------------------------------------
// The model: per-day totals and counts over a multiset of readings.
// ---------------------------------------------------------------------------

/// Sum of the temperatures of the points that fall on calendar day `day`.
pub open spec fn day_total(pts: Seq<RawPoint>, day: int) -> int
    decreases pts.len(),
{
    if pts.len() == 0 {
        0
    } else {
        day_total(pts.drop_last(), day) + if day_of(pts.last().timestamp as int) == day {
            pts.last().temperature as int
        } else {
            0
        }
    }
}

/// Number of points that fall on calendar day `day`.
pub open spec fn day_count(pts: Seq<RawPoint>, day: int) -> nat
    decreases pts.len(),
{
    if pts.len() == 0 {
        0
    } else {
        day_count(pts.drop_last(), day) + if day_of(pts.last().timestamp as int) == day {
            1nat
        } else {
            0nat
        }
    }
}

/// Arithmetic mean of the temperatures on calendar day `day`, rounded
/// towards negative infinity to a whole thousandth of a degree.
pub open spec fn daily_mean(pts: Seq<RawPoint>, day: int) -> int {
    day_total(pts, day) / (day_count(pts, day) as int)
}

/// Dates strictly ascending: sorted, and no date twice.
pub open spec fn strictly_ascending(series: Seq<WeatherData>) -> bool {
    forall|i: int, j: int| 0 <= i < j < series.len() ==> series[i].date < series[j].date
}

/// `series` is the merged daily forecast of the readings `pts`: ascending by
/// date with one entry per date, an entry for exactly the days that hold at
/// least one reading, and on each the mean of that day's temperatures.
pub open spec fn is_forecast_of(series: Seq<WeatherData>, pts: Seq<RawPoint>) -> bool {
    &&& strictly_ascending(series)
    &&& forall|i: int|
        0 <= i < series.len() ==> {
            &&& #[trigger] day_count(pts, series[i].date as int) > 0
            &&& series[i].temperature == daily_mean(pts, series[i].date as int)
        }
    &&& forall|day: int|
        #[trigger] day_count(pts, day) > 0 ==> exists|i: int|
            0 <= i < series.len() && series[i].date == day
}

// ---------------------------------------------------------------------------
// The same model over (day, temperature) pairs.
// ---------------------------------------------------------------------------

spec fn pair_total(s: Seq<(i64, i64)>, day: int) -> int
    decreases s.len(),
{
    if s.len() == 0 {
        0
    } else {
        pair_total(s.drop_last(), day) + if s.last().0 == day {
            s.last().1 as int
        } else {
            0
        }
    }
}

spec fn pair_count(s: Seq<(i64, i64)>, day: int) -> nat
    decreases s.len(),
{
    if s.len() == 0 {
        0
    } else {
        pair_count(s.drop_last(), day) + if s.last().0 == day {
            1nat
        } else {
            0nat
        }
    }
}

proof fn lemma_pair_concat(a: Seq<(i64, i64)>, b: Seq<(i64, i64)>, day: int)
    ensures
        pair_total(a + b, day) == pair_total(a, day) + pair_total(b, day),
        pair_count(a + b, day) == pair_count(a, day) + pair_count(b, day),
    decreases b.len(),
{
    if b.len() == 0 {
        assert(a + b =~= a);
    } else {
        assert((a + b).drop_last() =~= a + b.drop_last());
        lemma_pair_concat(a, b.drop_last(), day);
    }
}

proof fn lemma_pair_absent(s: Seq<(i64, i64)>, day: int)
    requires
        forall|k: int| 0 <= k < s.len() ==> s[k].0 != day,
    ensures
        pair_total(s, day) == 0,
        pair_count(s, day) == 0,
    decreases s.len(),
{
    if s.len() > 0 {
        lemma_pair_absent(s.drop_last(), day);
    }
}

proof fn lemma_pair_remove(s: Seq<(i64, i64)>, i: int, day: int)
    requires
        0 <= i < s.len(),
    ensures
        pair_total(s, day) == pair_total(s.remove(i), day) + if s[i].0 == day {
            s[i].1 as int
        } else {
            0
        },
        pair_count(s, day) == pair_count(s.remove(i), day) + if s[i].0 == day {
            1nat
        } else {
            0nat
        },
    decreases s.len(),
{
    if i < s.len() - 1 {
        assert(s.remove(i).drop_last() =~= s.drop_last().remove(i));
        lemma_pair_remove(s.drop_last(), i, day);
    } else {
        assert(s.remove(i) =~= s.drop_last());
    }
}

/// Totals and counts depend on the multiset of pairs alone.
proof fn lemma_pair_permutation(a: Seq<(i64, i64)>, b: Seq<(i64, i64)>, day: int)
    requires
        a.to_multiset() == b.to_multiset(),
    ensures
        pair_total(a, day) == pair_total(b, day),
        pair_count(a, day) == pair_count(b, day),
    decreases a.len(),
{
    broadcast use vstd::seq_lib::group_to_multiset_ensures;

    if a.len() == 0 {
        assert(b.to_multiset().len() == 0);
    } else {
        let x = a.last();
        assert(a.drop_last().push(x) =~= a);
        assert(a.to_multiset().count(x) > 0);
        assert(b.contains(x));
        let i = choose|i: int| 0 <= i < b.len() && b[i] == x;
        lemma_pair_remove(b, i, day);
        assert(b.remove(i).to_multiset() =~= a.drop_last().to_multiset());
        lemma_pair_permutation(a.drop_last(), b.remove(i), day);
    }
}

// ---------------------------------------------------------------------------
// Runs of equal days, as grouping hands them out.
// ---------------------------------------------------------------------------

/// A day beside each of a sequence of temperatures.
spec fn key_block(key: i64, vals: Seq<i64>) -> Seq<(i64, i64)> {
    vals.map_values(|t: i64| (key, t))
}

/// The pairs of one run.
spec fn run_block(run: (i64, Vec<i64>)) -> Seq<(i64, i64)> {
    key_block(run.0, run.1@)
}

/// The runs put back together, in order.
spec fn run_pairs(runs: Seq<(i64, Vec<i64>)>) -> Seq<(i64, i64)>
    decreases runs.len(),
{
    if runs.len() == 0 {
        Seq::empty()
    } else {
        run_pairs(runs.drop_last()) + run_block(runs.last())
    }
}

spec fn seq_sum(vals: Seq<i64>) -> int
    decreases vals.len(),
{
    if vals.len() == 0 {
        0
    } else {
        seq_sum(vals.drop_last()) + vals.last() as int
    }
}

spec fn ascending_days(s: Seq<(i64, i64)>) -> bool {
    forall|a: int, b: int| 0 <= a <= b < s.len() ==> s[a].0 <= s[b].0
}

spec fn well_grouped(runs: Seq<(i64, Vec<i64>)>) -> bool {
    &&& forall|i: int| 0 <= i < runs.len() ==> (#[trigger] runs[i]).1@.len() > 0
    &&& forall|i: int| 0 <= i < runs.len() - 1 ==> (#[trigger] runs[i]).0 != runs[i + 1].0
}

proof fn lemma_run_pairs_concat(a: Seq<(i64, Vec<i64>)>, b: Seq<(i64, Vec<i64>)>)
    ensures
        run_pairs(a + b) == run_pairs(a) + run_pairs(b),
    decreases b.len(),
{
    if b.len() == 0 {
        assert(a + b =~= a);
        assert(run_pairs(a) + run_pairs(b) =~= run_pairs(a));
    } else {
        assert((a + b).drop_last() =~= a + b.drop_last());
        lemma_run_pairs_concat(a, b.drop_last());
        assert(run_pairs(a + b) =~= run_pairs(a) + run_pairs(b));
    }
}

proof fn lemma_block_sum(key: i64, vals: Seq<i64>)
    ensures
        pair_total(key_block(key, vals), key as int) == seq_sum(vals),
        pair_count(key_block(key, vals), key as int) == vals.len(),
    decreases vals.len(),
{
    if vals.len() > 0 {
        assert(key_block(key, vals).drop_last() =~= key_block(key, vals.drop_last()));
        lemma_block_sum(key, vals.drop_last());
    }
}

proof fn lemma_single_run(r: (i64, Vec<i64>))
    ensures
        run_pairs(seq![r]) == run_block(r),
{
    let one = seq![r];
    assert(one.drop_last() =~= Seq::<(i64, Vec<i64>)>::empty());
    assert(run_pairs(one.drop_last()) =~= Seq::<(i64, i64)>::empty());
    assert(one.last() == r);
    assert(run_pairs(one) =~= run_block(r));
}

/// In a day-sorted sequence cut into runs of equal days, a run holds every
/// pair of its day, and the days of the runs strictly increase.
proof fn lemma_run_is_whole_day(sorted: Seq<(i64, i64)>, runs: Seq<(i64, Vec<i64>)>, i: int)
    requires
        ascending_days(sorted),
        well_grouped(runs),
        run_pairs(runs) == sorted,
        0 <= i < runs.len(),
    ensures
        pair_total(sorted, runs[i].0 as int) == seq_sum(runs[i].1@),
        pair_count(sorted, runs[i].0 as int) == runs[i].1@.len(),
        i > 0 ==> runs[i - 1].0 < runs[i].0,
{
    let key = runs[i].0;
    let pre = runs.take(i);
    let post = runs.skip(i + 1);
    assert(runs =~= pre + seq![runs[i]] + post);
    lemma_run_pairs_concat(pre + seq![runs[i]], post);
    lemma_run_pairs_concat(pre, seq![runs[i]]);
    lemma_single_run(runs[i]);
    let p = run_pairs(pre);
    let b = run_block(runs[i]);
    let t = run_pairs(post);
    assert(sorted == p + b + t);
    assert(runs[i].1@.len() > 0);
    assert(b[0].0 == key);
    assert(sorted[p.len() as int] == b[0]);
    if i > 0 {
        assert(pre.drop_last() =~= runs.take(i - 1));
        assert(pre.last() == runs[i - 1]);
        let b0 = run_block(runs[i - 1]);
        assert(runs[i - 1].1@.len() > 0);
        assert(p == run_pairs(runs.take(i - 1)) + b0);
        assert(p[p.len() - 1] == b0[b0.len() - 1]);
        assert(sorted[p.len() - 1] == p[p.len() - 1]);
        assert(sorted[p.len() - 1].0 <= sorted[p.len() as int].0);
        assert(runs[i - 1].0 != runs[i].0);
        assert forall|k: int| 0 <= k < p.len() implies p[k].0 != key by {
            assert(sorted[k] == p[k]);
            assert(sorted[k].0 <= sorted[p.len() - 1].0);
        }
    }
    lemma_pair_absent(p, key as int);
    if i + 1 < runs.len() {
        let rest = runs.skip(i + 2);
        assert(post =~= seq![runs[i + 1]] + rest);
        lemma_run_pairs_concat(seq![runs[i + 1]], rest);
        lemma_single_run(runs[i + 1]);
        let b1 = run_block(runs[i + 1]);
        assert(runs[i + 1].1@.len() > 0);
        assert(t[0] == b1[0]);
        assert(runs[i].0 != runs[i + 1].0);
        let base: int = (p.len() + b.len()) as int;
        assert(sorted[base] == t[0]);
        assert(sorted[p.len() as int].0 <= sorted[base].0);
        assert forall|k: int| 0 <= k < t.len() implies t[k].0 != key by {
            assert(sorted[base + k] == t[k]);
            assert(sorted[base].0 <= sorted[base + k].0);
        }
    }
    lemma_pair_absent(t, key as int);
    lemma_pair_concat(p + b, t, key as int);
    lemma_pair_concat(p, b, key as int);
    lemma_block_sum(key, runs[i].1@);
}

/// A day with pairs is the day of one of them.
proof fn lemma_counted_day_present(s: Seq<(i64, i64)>, day: int)
    requires
        pair_count(s, day) > 0,
    ensures
        exists|k: int| 0 <= k < s.len() && s[k].0 == day,
    decreases s.len(),
{
    if s.last().0 != day {
        lemma_counted_day_present(s.drop_last(), day);
        let k = choose|k: int| 0 <= k < s.len() - 1 && s.drop_last()[k].0 == day;
        assert(s[k] == s.drop_last()[k]);
    } else {
        assert(s[s.len() - 1].0 == day);
    }
}

/// A day with pairs belongs to some run.
proof fn lemma_day_has_run(runs: Seq<(i64, Vec<i64>)>, day: int)
    requires
        pair_count(run_pairs(runs), day) > 0,
    ensures
        exists|i: int| 0 <= i < runs.len() && runs[i].0 == day,
    decreases runs.len(),
{
    if runs.len() > 0 {
        let init = runs.drop_last();
        let last = runs.last();
        lemma_pair_concat(run_pairs(init), run_block(last), day);
        if last.0 != day {
            lemma_pair_absent(run_block(last), day);
            lemma_day_has_run(init, day);
            let i = choose|i: int| 0 <= i < init.len() && init[i].0 == day;
            assert(runs[i] == init[i]);
        } else {
            assert(runs[runs.len() - 1].0 == day);
        }
    }
}

// ---------------------------------------------------------------------------
// Executable merge.
// ---------------------------------------------------------------------------

/// Relies on slice::sort_unstable_by_key: the same pairs, reordered so that
/// their days never decrease.
#[verifier::external_body]
fn sort_by_day(pairs: &mut Vec<(i64, i64)>)
    ensures
        final(pairs)@.to_multiset() == old(pairs)@.to_multiset(),
        ascending_days(final(pairs)@),
{
    pairs.sort_unstable_by_key(|p| p.0)
}

/// Relies on Itertools::group_by: consecutive pairs with the same day form one
/// group (a "run"), so the groups put back together give the input, no group
/// is empty, and neighbouring groups have different days.
#[verifier::external_body]
fn group_by_day(pairs: &Vec<(i64, i64)>) -> (runs: Vec<(i64, Vec<i64>)>)
    ensures
        run_pairs(runs@) == pairs@,
        well_grouped(runs@),
{
    pairs.iter().group_by(|p| p.0).into_iter().map(|(day, run)| (day, run.map(|p| p.1).collect())).collect()
}

/// `sum / count`, rounded towards negative infinity.
fn floor_mean(sum: i128, count: u128) -> (mean: i64)
    requires
        0 < count <= u64::MAX,
        sum <= count * (i64::MAX as int),
        sum >= count * (i64::MIN as int),
    ensures
        mean == sum as int / count as int,
{
    let ghost q: int = sum as int / count as int;
    proof {
        vstd::arithmetic::div_mod::lemma_fundamental_div_mod(sum as int, count as int);
        vstd::arithmetic::div_mod::lemma_mod_bound(sum as int, count as int);
        let c = count as int;
        let x = sum as int;
        assert(q <= i64::MAX) by (nonlinear_arith)
            requires
                c > 0,
                c * q <= x,
                x <= c * (i64::MAX as int),
        ;
        assert(q >= i64::MIN) by (nonlinear_arith)
            requires
                c > 0,
                c * q + c > x,
                x >= c * (i64::MIN as int),
        ;
    }
    if sum >= 0 {
        let d: u128 = (sum as u128) / count;
        d as i64
    } else {
        assert(sum > i128::MIN) by (nonlinear_arith)
            requires
                0 < count <= u64::MAX,
                sum >= count * (i64::MIN as int),
        ;
        let m: u128 = (-sum) as u128;
        let d: u128 = m / count;
        let r: u128 = m % count;
        proof {
            vstd::arithmetic::div_mod::lemma_fundamental_div_mod(m as int, count as int);
            vstd::arithmetic::div_mod::lemma_mod_bound(m as int, count as int);
            assert(sum as int == -(m as int));
            let (c, di, ri) = (count as int, d as int, r as int);
            assert(m as int == c * di + ri);
            assert(sum as int == (-di) * c - ri) by (nonlinear_arith)
                requires
                    sum as int == -(m as int),
                    m as int == c * di + ri,
            ;
            assert(sum as int == (-di - 1) * c + (c - ri)) by (nonlinear_arith)
                requires
                    sum as int == (-di) * c - ri,
            ;
        }
        if r == 0 {
            proof {
                vstd::arithmetic::div_mod::lemma_fundamental_div_mod_converse(
                    sum as int,
                    count as int,
                    -(d as int),
                    0,
                );
            }
            -(d as i128) as i64
        } else {
            proof {
                vstd::arithmetic::div_mod::lemma_fundamental_div_mod_converse(
                    sum as int,
                    count as int,
                    -(d as int) - 1,
                    count as int - r as int,
                );
            }
            (-(d as i128) - 1) as i64
        }
    }
}

/// Sum of a run's temperatures, wide enough never to overflow.
fn run_sum(vals: &Vec<i64>) -> (sum: i128)
    ensures
        sum == seq_sum(vals@),
        sum <= vals@.len() * (i64::MAX as int),
        sum >= vals@.len() * (i64::MIN as int),
{
    let mut sum: i128 = 0;
    let mut j: usize = 0;
    while j < vals.len()
        invariant
            j <= vals@.len(),
            sum == seq_sum(vals@.take(j as int)),
            sum <= j * (i64::MAX as int),
            sum >= j * (i64::MIN as int),
        decreases vals@.len() - j,
    {
        assert(vals@.take(j + 1).drop_last() =~= vals@.take(j as int));
        sum = sum + vals[j] as i128;
        j = j + 1;
    }
    assert(vals@.take(j as int) =~= vals@);
    sum
}

/// Pairs each reading's calendar day with its temperature.
fn day_pairs(points: &Vec<RawPoint>) -> (pairs: Vec<(i64, i64)>)
    ensures
        forall|k: int| 0 <= k < pairs@.len() ==> MIN_DAY <= (#[trigger] pairs@[k]).0 <= MAX_DAY,
        forall|day: int|
            #![trigger day_total(points@, day)]
            #![trigger day_count(points@, day)]
            pair_total(pairs@, day) == day_total(points@, day) && pair_count(pairs@, day)
                == day_count(points@, day),
{
    let mut pairs: Vec<(i64, i64)> = Vec::new();
    let mut k: usize = 0;
    while k < points.len()
        invariant
            k <= points@.len(),
            forall|j: int| 0 <= j < pairs@.len() ==> MIN_DAY <= (#[trigger] pairs@[j]).0 <= MAX_DAY,
            forall|day: int|
                pair_total(pairs@, day) == day_total(points@.take(k as int), day) && pair_count(
                    pairs@,
                    day,
                ) == day_count(points@.take(k as int), day),
        decreases points@.len() - k,
    {
        let p = points[k];
        let day = calendar_day(p.timestamp);
        let ghost before = pairs@;
        pairs.push((day, p.temperature));
        proof {
            assert(pairs@.drop_last() =~= before);
            assert(points@.take(k + 1).drop_last() =~= points@.take(k as int));
            assert(points@.take(k + 1).last() == p);
            assert forall|d: int|
                pair_total(pairs@, d) == day_total(points@.take(k + 1), d) && pair_count(pairs@, d)
                    == day_count(points@.take(k + 1), d) by {
                assert(pair_total(pairs@, d) == pair_total(before, d) + if day == d {
                    p.temperature as int
                } else {
                    0
                });
            }
        }
        k = k + 1;
    }
    assert(points@.take(k as int) =~= points@);
    pairs
}

/// The readings of the providers that succeeded, in provider order; a
/// provider that failed (`None`) adds nothing.
pub open spec fn surviving_points(results: Seq<Option<Vec<RawPoint>>>) -> Seq<RawPoint>
    decreases results.len(),
{
    if results.len() == 0 {
        Seq::empty()
    } else {
        surviving_points(results.drop_last()) + match results.last() {
            Some(points) => points@,
            None => Seq::empty(),
        }
    }
}

/// Concatenates the readings of the providers that succeeded, leaving out
/// the ones that failed.
pub fn collect_points(results: &Vec<Option<Vec<RawPoint>>>) -> (points: Vec<RawPoint>)
    ensures
        points@ == surviving_points(results@),
{
    let mut points: Vec<RawPoint> = Vec::new();
    let mut i: usize = 0;
    while i < results.len()
        invariant
            i <= results@.len(),
            points@ == surviving_points(results@.take(i as int)),
        decreases results@.len() - i,
    {
        assert(results@.take(i + 1).drop_last() =~= results@.take(i as int));
        match &results[i] {
            Some(batch) => {
                let ghost start = points@;
                let mut j: usize = 0;
                while j < batch.len()
                    invariant
                        j <= batch@.len(),
                        points@ == start + batch@.take(j as int),
                    decreases batch@.len() - j,
                {
                    points.push(batch[j]);
                    assert(batch@.take(j + 1) =~= batch@.take(j as int).push(batch@[j as int]));
                    assert(points@ =~= start + batch@.take(j + 1));
                    j = j + 1;
                }
                assert(batch@.take(j as int) =~= batch@);
            },
            None => {
                assert(points@ =~= points@ + Seq::<RawPoint>::empty());
            },
        }
        i = i + 1;
    }
    assert(results@.take(i as int) =~= results@);
    points
}

/// Merges readings into one forecast per calendar day: each reading is
/// projected onto its UTC day, readings are grouped by day, each group is
/// averaged, and the days come out in ascending order.
pub fn aggregate(points: &Vec<RawPoint>) -> (series: WeatherDataVec)
    ensures
        is_forecast_of(weather_items(series), points@),
{
    let mut pairs = day_pairs(points);
    let ghost projected = pairs@;
    sort_by_day(&mut pairs);
    assert forall|day: int|
        pair_total(pairs@, day) == day_total(points@, day) && pair_count(pairs@, day)
            == day_count(points@, day) by {
        lemma_pair_permutation(projected, pairs@, day);
    }
    proof {
        broadcast use vstd::seq_lib::group_to_multiset_ensures;

        assert forall|k: int| 0 <= k < pairs@.len() implies MIN_DAY <= (#[trigger] pairs@[k]).0
            <= MAX_DAY by {
            assert(pairs@.contains(pairs@[k]));
            assert(projected.to_multiset().count(pairs@[k]) > 0);
            assert(projected.contains(pairs@[k]));
        }
    }
    let runs = group_by_day(&pairs);
    let mut out = empty_series();
    let mut i: usize = 0;
    while i < runs.len()
        invariant
            i <= runs@.len(),
            ascending_days(pairs@),
            well_grouped(runs@),
            run_pairs(runs@) == pairs@,
            forall|k: int| 0 <= k < pairs@.len() ==> MIN_DAY <= (#[trigger] pairs@[k]).0 <= MAX_DAY,
            weather_items(out).len() == i,
            strictly_ascending(weather_items(out)),
            forall|j: int|
                0 <= j < i ==> MIN_DAY + j <= (#[trigger] weather_items(out)[j]).date <= MAX_DAY,
            forall|j: int|
                0 <= j < i ==> {
                    &&& (#[trigger] weather_items(out)[j]).date == runs@[j].0
                    &&& pair_count(pairs@, runs@[j].0 as int) > 0
                    &&& weather_items(out)[j].temperature == pair_total(pairs@, runs@[j].0 as int)
                        / (pair_count(pairs@, runs@[j].0 as int) as int)
                },
        decreases runs@.len() - i,
    {
        let day = runs[i].0;
        let sum = run_sum(&runs[i].1);
        proof {
            lemma_run_is_whole_day(pairs@, runs@, i as int);
            lemma_counted_day_present(pairs@, day as int);
            if i > 0 {
                assert(weather_items(out)[i - 1].date == runs@[i - 1].0);
            }
        }
        let mean = floor_mean(sum, runs[i].1.len() as u128);
        let ghost before = weather_items(out);
        push_item(&mut out, WeatherData { temperature: mean, date: day });
        proof {
            let now = weather_items(out);
            assert(now[i as int].date == day);
            assert forall|a: int, b: int| 0 <= a < b < now.len() implies now[a].date < now[b].date by {
                if b == i {
                    if a < i - 1 {
                        assert(before[a].date < before[i - 1].date);
                    }
                    assert(now[a] == before[a]);
                    assert(now[i - 1] == before[i - 1]);
                } else {
                    assert(now[a] == before[a]);
                    assert(now[b] == before[b]);
                }
            }
            assert forall|j: int| 0 <= j < i + 1 implies MIN_DAY + j <= (#[trigger] now[j]).date
                <= MAX_DAY by {
                if j < i {
                    assert(now[j] == before[j]);
                }
            }
            assert forall|j: int| 0 <= j < i + 1 implies #[trigger] now[j].date == runs@[j].0 && pair_count(pairs@, runs@[j].0 as int) > 0 && now[j].temperature == pair_total(pairs@, runs@[j].0 as int) / (pair_count(pairs@, runs@[j].0 as int) as int) by {
                if j < i {
                    assert(now[j] == before[j]);
                }
            }
        }
        i = i + 1;
    }
    proof {
        let items = weather_items(out);
        assert forall|day: int| #[trigger] day_count(points@, day) > 0 implies exists|k: int|
            0 <= k < items.len() && items[k].date == day by {
            lemma_day_has_run(runs@, day);
            let k = choose|k: int| 0 <= k < runs@.len() && runs@[k].0 == day;
            assert(items[k].date == day);
        }
    }
    out
}

// ---------------------------------------------------------------------------
// Laws of the merge.
// ---------------------------------------------------------------------------

/// Plain sum of all temperatures.
pub open spec fn temperature_sum(pts: Seq<RawPoint>) -> int
    decreases pts.len(),
{
    if pts.len() == 0 {
        0
    } else {
        temperature_sum(pts.drop_last()) + pts.last().temperature as int
    }
}

proof fn lemma_day_remove(s: Seq<RawPoint>, i: int, day: int)
    requires
        0 <= i < s.len(),
    ensures
        day_total(s, day) == day_total(s.remove(i), day) + if day_of(s[i].timestamp as int)
            == day {
            s[i].temperature as int
        } else {
            0
        },
        day_count(s, day) == day_count(s.remove(i), day) + if day_of(s[i].timestamp as int)
            == day {
            1nat
        } else {
            0nat
        },
    decreases s.len(),
{
    if i < s.len() - 1 {
        assert(s.remove(i).drop_last() =~= s.drop_last().remove(i));
        lemma_day_remove(s.drop_last(), i, day);
    } else {
        assert(s.remove(i) =~= s.drop_last());
    }
}

proof fn lemma_day_permutation(a: Seq<RawPoint>, b: Seq<RawPoint>, day: int)
    requires
        a.to_multiset() == b.to_multiset(),
    ensures
        day_total(a, day) == day_total(b, day),
        day_count(a, day) == day_count(b, day),
    decreases a.len(),
{
    broadcast use vstd::seq_lib::group_to_multiset_ensures;

    if a.len() == 0 {
        assert(b.to_multiset().len() == 0);
    } else {
        let x = a.last();
        assert(a.drop_last().push(x) =~= a);
        assert(a.to_multiset().count(x) > 0);
        assert(b.contains(x));
        let i = choose|i: int| 0 <= i < b.len() && b[i] == x;
        lemma_day_remove(b, i, day);
        assert(b.remove(i).to_multiset() =~= a.drop_last().to_multiset());
        lemma_day_permutation(a.drop_last(), b.remove(i), day);
    }
}

spec fn has_date(s: Seq<WeatherData>, day: int) -> bool {
    exists|j: int| 0 <= j < s.len() && s[j].date == day
}

/// Two strictly ascending series that hold the same dates hold them at the
/// same positions.
proof fn lemma_same_dates(s1: Seq<WeatherData>, s2: Seq<WeatherData>)
    requires
        strictly_ascending(s1),
        strictly_ascending(s2),
        forall|i: int| 0 <= i < s1.len() ==> has_date(s2, #[trigger] s1[i].date as int),
        forall|j: int| 0 <= j < s2.len() ==> has_date(s1, #[trigger] s2[j].date as int),
    ensures
        s1.len() == s2.len(),
        forall|i: int| 0 <= i < s1.len() ==> s1[i].date == s2[i].date,
    decreases s1.len() + s2.len(),
{
    if s1.len() == 0 {
        if s2.len() > 0 {
            assert(has_date(s1, s2[0].date as int));
        }
    } else if s2.len() == 0 {
        assert(has_date(s2, s1[0].date as int));
    } else {
        assert(has_date(s2, s1[0].date as int));
        assert(has_date(s1, s2[0].date as int));
        let j = choose|j: int| 0 <= j < s2.len() && s2[j].date == s1[0].date;
        let i = choose|i: int| 0 <= i < s1.len() && s1[i].date == s2[0].date;
        assert(s1[0].date == s2[0].date) by {
            if j > 0 {
                assert(s2[0].date < s2[j].date);
            }
            if i > 0 {
                assert(s1[0].date < s1[i].date);
            }
        }
        let t1 = s1.skip(1);
        let t2 = s2.skip(1);
        assert forall|a: int| 0 <= a < t1.len() implies has_date(t2, #[trigger] t1[a].date as int) by {
            assert(has_date(s2, s1[a + 1].date as int));
            assert(s1[0].date < s1[a + 1].date);
            let b = choose|b: int| 0 <= b < s2.len() && s2[b].date == s1[a + 1].date;
            assert(b != 0);
            assert(t2[b - 1].date == t1[a].date);
        }
        assert forall|b: int| 0 <= b < t2.len() implies has_date(t1, #[trigger] t2[b].date as int) by {
            assert(has_date(s1, s2[b + 1].date as int));
            assert(s2[0].date < s2[b + 1].date);
            let a = choose|a: int| 0 <= a < s1.len() && s1[a].date == s2[b + 1].date;
            assert(a != 0);
            assert(t1[a - 1].date == t2[b].date);
        }
        lemma_same_dates(t1, t2);
        assert forall|a: int| 0 <= a < s1.len() implies s1[a].date == s2[a].date by {
            if a > 0 {
                assert(t1[a - 1].date == t2[a - 1].date);
            }
        }
    }
}

/// The merged forecast depends only on the multiset of readings: the same
/// readings, in any order and however they were split among providers,
/// always merge to the same series.
pub proof fn law_merge_order_independent(
    s1: Seq<WeatherData>,
    s2: Seq<WeatherData>,
    a: Seq<RawPoint>,
    b: Seq<RawPoint>,
)
    requires
        is_forecast_of(s1, a),
        is_forecast_of(s2, b),
        a.to_multiset() == b.to_multiset(),
    ensures
        s1 == s2,
{
    assert forall|day: int|
        day_total(a, day) == day_total(b, day) && #[trigger] day_count(a, day) == day_count(
            b,
            day,
        ) by {
        lemma_day_permutation(a, b, day);
    }
    assert forall|i: int| 0 <= i < s1.len() implies has_date(s2, #[trigger] s1[i].date as int) by {
        assert(day_count(a, s1[i].date as int) > 0);
        assert(day_count(b, s1[i].date as int) > 0);
    }
    assert forall|j: int| 0 <= j < s2.len() implies has_date(s1, #[trigger] s2[j].date as int) by {
        assert(day_count(b, s2[j].date as int) > 0);
        assert(day_count(a, s2[j].date as int) > 0);
    }
    lemma_same_dates(s1, s2);
    assert forall|i: int| 0 <= i < s1.len() implies s1[i] == s2[i] by {
        assert(day_count(a, s1[i].date as int) > 0);
        assert(day_count(b, s2[i].date as int) > 0);
    }
    assert(s1 =~= s2);
}

proof fn lemma_all_on_day(pts: Seq<RawPoint>, day: int, other: int)
    requires
        forall|k: int| 0 <= k < pts.len() ==> day_of(pts[k].timestamp as int) == day,
    ensures
        day_total(pts, day) == temperature_sum(pts),
        day_count(pts, day) == pts.len(),
        other != day ==> day_count(pts, other) == 0,
    decreases pts.len(),
{
    if pts.len() > 0 {
        lemma_all_on_day(pts.drop_last(), day, other);
    }
}

/// Readings that all fall on one calendar day merge into a single entry for
/// that day whose temperature is their sum divided by their count.
pub proof fn law_single_day_mean(series: Seq<WeatherData>, pts: Seq<RawPoint>, day: int)
    requires
        pts.len() > 0,
        forall|k: int| 0 <= k < pts.len() ==> day_of(pts[k].timestamp as int) == day,
        is_forecast_of(series, pts),
    ensures
        series.len() == 1,
        series[0].date == day,
        series[0].temperature == temperature_sum(pts) / (pts.len() as int),
{
    lemma_all_on_day(pts, day, day);
    assert(day_count(pts, day) > 0);
    let i = choose|i: int| 0 <= i < series.len() && series[i].date == day;
    assert forall|j: int| 0 <= j < series.len() implies series[j].date == day by {
        lemma_all_on_day(pts, day, series[j].date as int);
    }
    if series.len() > 1 {
        assert(series[0].date < series[1].date);
    }
}

proof fn lemma_none_survive(results: Seq<Option<Vec<RawPoint>>>)
    requires
        forall|j: int| 0 <= j < results.len() ==> (#[trigger] results[j]) is None,
    ensures
        surviving_points(results) == Seq::<RawPoint>::empty(),
    decreases results.len(),
{
    if results.len() > 0 {
        lemma_none_survive(results.drop_last());
        assert(surviving_points(results) =~= Seq::<RawPoint>::empty());
    }
}

/// When every provider failed, the merged forecast is empty.
pub proof fn law_all_failed(results: Seq<Option<Vec<RawPoint>>>, series: Seq<WeatherData>)
    requires
        forall|j: int| 0 <= j < results.len() ==> (#[trigger] results[j]) is None,
        is_forecast_of(series, surviving_points(results)),
    ensures
        surviving_points(results) == Seq::<RawPoint>::empty(),
        series.len() == 0,
{
    lemma_none_survive(results);
    if series.len() > 0 {
        assert(day_count(Seq::<RawPoint>::empty(), series[0].date as int) > 0);
    }
}

/// When exactly one provider succeeded, the merge sees exactly its readings:
/// the failed providers add nothing, so the forecast is that provider's own
/// per-day averages.
pub proof fn law_single_survivor(
    results: Seq<Option<Vec<RawPoint>>>,
    k: int,
    series: Seq<WeatherData>,
)
    requires
        0 <= k < results.len(),
        results[k] is Some,
        forall|j: int| 0 <= j < results.len() && j != k ==> (#[trigger] results[j]) is None,
    ensures
        surviving_points(results) == results[k]->Some_0@,
        is_forecast_of(series, surviving_points(results)) <==> is_forecast_of(
            series,
            results[k]->Some_0@,
        ),
    decreases results.len(),
{
    let n = results.len();
    if k == n - 1 {
        assert forall|j: int| 0 <= j < n - 1 implies (#[trigger] results.drop_last()[j]) is None by {
            assert(results.drop_last()[j] == results[j]);
        }
        lemma_none_survive(results.drop_last());
        assert(surviving_points(results) =~= results[k]->Some_0@);
    } else {
        assert forall|j: int| 0 <= j < n - 1 && j != k implies (#[trigger] results.drop_last()[j]) is None by {
            assert(results.drop_last()[j] == results[j]);
        }
        law_single_survivor(results.drop_last(), k, series);
        assert(results[n - 1] is None);
        assert(surviving_points(results) =~= surviving_points(results.drop_last()));
    }
}

} // verus!

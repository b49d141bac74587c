use vstd::prelude::*;
use vstd::string::StringExecFns;

use crate::models::{zoned_time_wf, ScheduleEvaluation, ZonedTime, MAX_DIM, MAX_SCHEDULE_POINTS};
use crate::schedule::{clamp, clamp_dim, clamp_dim_precise, MAX_TRANSITION_MINUTES};
use crate::sorting::{is_sorted_by, is_total_preorder, lemma_insert_by_at, sort_by};
use crate::text::{digit_char, string_from_chars};

verus! {

/// An enabled point as the schedule reads it: its time of day as chrono holds it
/// (whole seconds since midnight, and nanoseconds, from 1_000_000_000 on within
/// a leap second), its transition in minutes and its dim target in hundredths
/// of a percent.
#[derive(Clone, Copy, Debug, PartialEq, Eq, Structural)]
pub struct TimedPoint {
    pub seconds: u32,
    pub nanos: u32,
    pub transition_minutes: i32,
    pub target_dim_percent: i64,
}

/// The nanoseconds of one second.
pub const NANOS_PER_SECOND: u32 = 1_000_000_000;

pub open spec fn timed_point_wf(p: TimedPoint) -> bool {
    &&& p.seconds < 86400
    &&& p.nanos < 2 * NANOS_PER_SECOND
    &&& 0 <= p.transition_minutes <= MAX_TRANSITION_MINUTES
    &&& 0 <= p.target_dim_percent <= MAX_DIM
}

pub open spec fn timed_points_wf(points: Seq<TimedPoint>) -> bool {
    forall|i: int| 0 <= i < points.len() ==> #[trigger] timed_point_wf(points[i])
}

/// Instants as chrono orders them: by whole second, then by the nanoseconds
/// (a leap second comes after the rest of its second and before the next one).
pub open spec fn instant_le(s1: int, n1: int, s2: int, n2: int) -> bool {
    s1 < s2 || (s1 == s2 && n1 <= n2)
}

pub open spec fn instant_lt(s1: int, n1: int, s2: int, n2: int) -> bool {
    s1 < s2 || (s1 == s2 && n1 < n2)
}

/// Orders timed points by their time of day.
pub open spec fn time_of_day_le() -> spec_fn(TimedPoint, TimedPoint) -> bool {
    |a: TimedPoint, b: TimedPoint| instant_le(a.seconds as int, a.nanos as int, b.seconds as int, b.nanos as int)
}

fn time_of_day_le_exec(a: &TimedPoint, b: &TimedPoint) -> (r: bool)
    ensures
        r == time_of_day_le()(*a, *b),
{
    a.seconds < b.seconds || (a.seconds == b.seconds && a.nanos <= b.nanos)
}

/// Stable insertion sort of timed points by time of day.
fn sort_by_time_of_day(points: &Vec<TimedPoint>) -> (r: Vec<TimedPoint>)
    ensures
        r@ == sort_by(points@, time_of_day_le()),
{
    let mut sorted: Vec<TimedPoint> = Vec::new();
    let mut i: usize = 0;
    while i < points.len()
        invariant
            i <= points.len(),
            sorted@ == sort_by(points@.take(i as int), time_of_day_le()),
        decreases points.len() - i,
    {
        let x = points[i];
        let ghost before = sorted@;
        let mut j: usize = sorted.len();
        while j > 0 && !time_of_day_le_exec(&sorted[j - 1], &x)
            invariant
                j <= sorted@.len(),
                before == sorted@,
                forall|k: int| j <= k < sorted@.len() ==> !time_of_day_le()(#[trigger] before[k], x),
            decreases j,
        {
            j = j - 1;
        }
        proof {
            lemma_insert_by_at(before, x, time_of_day_le(), j as int);
        }
        sorted.insert(j, x);
        proof {
            assert(sorted@ =~= before.take(j as int) + seq![x] + before.skip(j as int));
            assert(points@.take(i as int + 1).drop_last() =~= points@.take(i as int));
        }
        i = i + 1;
    }
    assert(points@.take(points@.len() as int) =~= points@);
    sorted
}

/// The second of the (UTC) day of an instant given in seconds since the epoch.
pub open spec fn second_of_day(s: int) -> int {
    s % 86400
}

/// Whole seconds from instant `b` to instant `a`, as chrono counts them in
/// `(a - b).num_seconds()`: the difference of the seconds, plus one where `b` lies
/// within a leap second and `a` falls later in its UTC day than `b`, minus one
/// where `a` lies within a leap second and falls earlier in its UTC day than `b`,
/// plus what the nanoseconds carry, rounded toward zero.
pub open spec fn whole_seconds_between(a_s: int, a_n: int, b_s: int, b_n: int) -> int {
    let ad = second_of_day(a_s);
    let bd = second_of_day(b_s);
    let carry = if ad > bd && b_n >= NANOS_PER_SECOND {
        1int
    } else if ad < bd && a_n >= NANOS_PER_SECOND {
        -1int
    } else {
        0int
    };
    let frac = a_n - b_n;
    let secs = a_s - b_s + carry + frac / (NANOS_PER_SECOND as int);
    let nanos = frac % (NANOS_PER_SECOND as int);
    if secs < 0 && nanos > 0 {
        secs + 1
    } else {
        secs
    }
}

/// The whole seconds of the start of a transition of `minutes` that reaches its
/// point at the instant (`target_s`, `target_n`), as chrono subtracts the minutes:
/// from within a leap second it counts from the second after it.
pub open spec fn start_seconds(target_s: int, target_n: int, minutes: int) -> int {
    if target_n >= NANOS_PER_SECOND && minutes > 0 {
        target_s + 1 - minutes * 60
    } else {
        target_s - minutes * 60
    }
}

/// The nanoseconds of that start: a leap second's are left behind, except for a
/// transition of no length, which starts at its point.
pub open spec fn start_nanos(target_n: int, minutes: int) -> int {
    if target_n >= NANOS_PER_SECOND && minutes > 0 {
        target_n - NANOS_PER_SECOND
    } else {
        target_n
    }
}

/// One occurrence of a point on a given day, in seconds since the epoch (UTC)
/// with nanoseconds: the transition runs from the start to the target time,
/// fading from the previous point's dim to this point's dim.
#[derive(Clone, Copy, Debug, PartialEq, Eq, Structural)]
pub struct Occurrence {
    pub transition_start: i64,
    pub start_nanos: u32,
    pub target_time: i64,
    pub target_nanos: u32,
    pub start_dim_percent: i64,
    pub target_dim_percent: i64,
}

/// Occurrence `k` of the day-by-day repetition of `sorted`, whose first day starts
/// at `first_day` (seconds since the epoch): the day is `k / n`, the point `k % n`,
/// and the fade starts from the dim of the occurrence before it (the last one for `k == 0`).
pub open spec fn occurrence_at(sorted: Seq<TimedPoint>, first_day: int, k: int) -> Occurrence {
    let n = sorted.len() as int;
    let p = sorted[k % n];
    let target = first_day + (k / n) * 86400 + p.seconds;
    Occurrence {
        transition_start: start_seconds(target, p.nanos as int, p.transition_minutes as int) as i64,
        start_nanos: start_nanos(p.nanos as int, p.transition_minutes as int) as u32,
        target_time: target as i64,
        target_nanos: p.nanos,
        start_dim_percent: sorted[(k + n - 1) % n].target_dim_percent,
        target_dim_percent: p.target_dim_percent,
    }
}

/// The occurrences of `sorted` over `days` consecutive days from `first_day`.
pub open spec fn occurrences(sorted: Seq<TimedPoint>, first_day: int, days: int) -> Seq<Occurrence> {
    Seq::new((days * sorted.len()) as nat, |k: int| occurrence_at(sorted, first_day, k))
}

fn build_occurrences(sorted: &Vec<TimedPoint>, first_day: i64, days: usize) -> (r: Vec<Occurrence>)
    requires
        sorted.len() > 0,
        1 <= days <= 5,
        sorted.len() <= MAX_SCHEDULE_POINTS,
        timed_points_wf(sorted@),
        -20_000_000_000_000 <= first_day <= 20_000_000_000_000,
    ensures
        r@ == occurrences(sorted@, first_day as int, days as int),
{
    let n = sorted.len();
    let mut r: Vec<Occurrence> = Vec::new();
    let mut d: usize = 0;
    while d < days
        invariant
            n == sorted@.len(),
            0 < n <= MAX_SCHEDULE_POINTS,
            1 <= days <= 5,
            d <= days,
            timed_points_wf(sorted@),
            -20_000_000_000_000 <= first_day <= 20_000_000_000_000,
            r@.len() == d * n,
            forall|k: int| 0 <= k < r@.len() ==> #[trigger] r@[k] == occurrence_at(sorted@, first_day as int, k),
        decreases days - d,
    {
        let mut i: usize = 0;
        while i < n
            invariant
                n == sorted@.len(),
                0 < n <= MAX_SCHEDULE_POINTS,
                d < days <= 5,
                i <= n,
                timed_points_wf(sorted@),
                -20_000_000_000_000 <= first_day <= 20_000_000_000_000,
                r@.len() == d * n + i,
                forall|k: int| 0 <= k < r@.len() ==> #[trigger] r@[k] == occurrence_at(sorted@, first_day as int, k),
            decreases n - i,
        {
            let p = sorted[i];
            let previous = if i == 0 { sorted[n - 1] } else { sorted[i - 1] };
            assert(timed_point_wf(p));
            assert(d * n + i <= 5 * 100_000_000) by (nonlinear_arith)
                requires d < 5, i < n, n <= 100_000_000;
            let day_start: i64 = first_day + (d as i64) * 86400;
            let target: i64 = day_start + p.seconds as i64;
            let leap = p.nanos >= NANOS_PER_SECOND && p.transition_minutes > 0;
            let start: i64 = if leap {
                target + 1 - (p.transition_minutes as i64) * 60
            } else {
                target - (p.transition_minutes as i64) * 60
            };
            let start_n: u32 = if leap { p.nanos - NANOS_PER_SECOND } else { p.nanos };
            let occ = Occurrence {
                transition_start: start,
                start_nanos: start_n,
                target_time: target,
                target_nanos: p.nanos,
                start_dim_percent: previous.target_dim_percent,
                target_dim_percent: p.target_dim_percent,
            };
            proof {
                let k = d * n + i;
                vstd::arithmetic::div_mod::lemma_fundamental_div_mod_converse(k as int, n as int, d as int, i as int);
                if i == 0 {
                    vstd::arithmetic::div_mod::lemma_fundamental_div_mod_converse(
                        (k + n - 1) as int, n as int, d as int, (n - 1) as int);
                } else {
                    assert((d + 1) * n == d * n + n) by (nonlinear_arith);
                    vstd::arithmetic::div_mod::lemma_fundamental_div_mod_converse(
                        (k + n - 1) as int, n as int, (d + 1) as int, (i - 1) as int);
                }
                assert(occ == occurrence_at(sorted@, first_day as int, k as int));
            }
            r.push(occ);
            i = i + 1;
        }
        assert((d + 1) * n == d * n + n) by (nonlinear_arith);
        d = d + 1;
    }
    assert(r@ =~= occurrences(sorted@, first_day as int, days as int));
    r
}


/// Whether the transition of `next` starts before the point of `current` is reached.
pub open spec fn starts_before_reached(next: Occurrence, current: Occurrence) -> bool {
    instant_lt(next.transition_start as int, next.start_nanos as int, current.target_time as int, current.target_nanos as int)
}

/// The first `k >= from` at which the next occurrence's transition starts before
/// occurrence `k` is reached.
pub open spec fn first_overlap_from(occs: Seq<Occurrence>, from: int) -> Option<int>
    decreases occs.len() - from,
{
    if from < 0 || from + 1 >= occs.len() {
        None
    } else if starts_before_reached(occs[from + 1], occs[from]) {
        Some(from)
    } else {
        first_overlap_from(occs, from + 1)
    }
}

/// The two consecutive days that validation lays the points out on, from a midnight at 0.
pub open spec fn validation_occurrences(points: Seq<TimedPoint>) -> Seq<Occurrence> {
    occurrences(sort_by(points, time_of_day_le()), 0, 2)
}

/// The first overlap among the points laid out over two days, as the pair
/// (start of the overlapping transition, time of the point it overlaps).
pub open spec fn spec_find_overlap(points: Seq<TimedPoint>) -> Option<(i64, i64)> {
    let occs = validation_occurrences(points);
    match first_overlap_from(occs, 0) {
        Some(k) => Some((occs[k + 1].transition_start, occs[k].target_time)),
        None => None,
    }
}

pub proof fn lemma_sort_by_time_of_day_wf(points: Seq<TimedPoint>)
    requires
        timed_points_wf(points),
    ensures
        timed_points_wf(sort_by(points, time_of_day_le())),
        sort_by(points, time_of_day_le()).len() == points.len(),
{
    crate::sorting::lemma_sort_by_len(points, time_of_day_le());
    let sorted = sort_by(points, time_of_day_le());
    crate::sorting::lemma_sort_by_multiset(points, time_of_day_le());
    assert forall|i: int| 0 <= i < sorted.len() implies #[trigger] timed_point_wf(sorted[i]) by {
        broadcast use vstd::seq_lib::group_to_multiset_ensures;
        assert(sorted.contains(sorted[i]));
        assert(points.to_multiset().count(sorted[i]) > 0);
        assert(points.contains(sorted[i]));
    }
}

/// Lays the points out over two consecutive days and finds the first place where
/// a transition starts before the point ahead of it is reached.
pub fn find_overlap(points: &Vec<TimedPoint>) -> (r: Option<(i64, i64)>)
    requires
        0 < points.len() <= MAX_SCHEDULE_POINTS,
        timed_points_wf(points@),
    ensures
        r == spec_find_overlap(points@),
{
    proof {
        lemma_sort_by_time_of_day_wf(points@);
    }
    let sorted = sort_by_time_of_day(points);
    let occs = build_occurrences(&sorted, 0, 2);
    let ghost all = occs@;
    assert(all == validation_occurrences(points@));
    let mut k: usize = 0;
    assert(first_overlap_from(all, 0) == first_overlap_from(all, k as int));
    while k + 1 < occs.len()
        invariant
            all == occs@,
            all == validation_occurrences(points@),
            k < occs@.len(),
            first_overlap_from(all, 0) == first_overlap_from(all, k as int),
        decreases occs.len() - k,
    {
        let next = occs[k + 1];
        let current = occs[k];
        if next.transition_start < current.target_time
            || (next.transition_start == current.target_time && next.start_nanos < current.target_nanos) {
            assert(first_overlap_from(all, k as int) == Some(k as int));
            return Some((occs[k + 1].transition_start, occs[k].target_time));
        }
        k = k + 1;
    }
    None
}

/// `t` seconds after a midnight, read on a 24-hour clock as `HH:MM`.
pub open spec fn clock_text(t: int) -> Seq<char> {
    let m = t % 86400;
    let h = m / 3600;
    let mi = (m % 3600) / 60;
    seq![digit_char(h / 10), digit_char(h % 10), ':', digit_char(mi / 10), digit_char(mi % 10)]
}

fn clock_chars(t: i64) -> (r: Vec<char>)
    requires
        -1_000_000 <= t <= 1_000_000,
    ensures
        r@ == clock_text(t as int),
{
    let shifted: i64 = t + 86400 * 12;
    let m: i64 = shifted % 86400;
    proof {
        vstd::arithmetic::div_mod::lemma_fundamental_div_mod(t as int, 86400);
        vstd::arithmetic::div_mod::lemma_fundamental_div_mod_converse(
            shifted as int, 86400, t as int / 86400 + 12, t as int % 86400);
    }
    assert(m == t as int % 86400);
    let h: i64 = m / 3600;
    let mi: i64 = (m % 3600) / 60;
    let mut r: Vec<char> = Vec::new();
    r.push(((48 + h / 10) as u8) as char);
    r.push(((48 + h % 10) as u8) as char);
    r.push(':');
    r.push(((48 + mi / 10) as u8) as char);
    r.push(((48 + mi % 10) as u8) as char);
    assert(r@ =~= clock_text(t as int));
    r
}

pub open spec fn overlap_message(start: int, point: int) -> Seq<char> {
    "The transition starting at "@ + clock_text(start) + " overlaps the point at "@
        + clock_text(point) + "."@
}

pub(crate) fn overlap_message_text(start: i64, point: i64) -> (r: String)
    requires
        -1_000_000 <= start <= 1_000_000,
        -1_000_000 <= point <= 1_000_000,
    ensures
        r@ == overlap_message(start as int, point as int),
{
    let start_chars = clock_chars(start);
    let point_chars = clock_chars(point);
    let start_text = string_from_chars(start_chars.as_slice());
    let point_text = string_from_chars(point_chars.as_slice());
    let mut message = String::from_str("The transition starting at ");
    message.append(start_text.as_str());
    message.append(" overlaps the point at ");
    message.append(point_text.as_str());
    message.append(".");
    message
}


/// Whether `now` lies within the transition of `o`, ends included.
pub open spec fn is_active(o: Occurrence, now: ZonedTime) -> bool {
    &&& instant_le(o.transition_start as int, o.start_nanos as int, now.seconds as int, now.nanos as int)
    &&& instant_le(now.seconds as int, now.nanos as int, o.target_time as int, o.target_nanos as int)
}

/// Whether the point of `o` has been reached at `now`.
pub open spec fn has_reached(o: Occurrence, now: ZonedTime) -> bool {
    instant_le(o.target_time as int, o.target_nanos as int, now.seconds as int, now.nanos as int)
}

/// Whether the transition of `o` is still to start after `now`.
pub open spec fn starts_after(o: Occurrence, now: ZonedTime) -> bool {
    instant_lt(now.seconds as int, now.nanos as int, o.transition_start as int, o.start_nanos as int)
}

/// The last of the first `len` occurrences that is active at `now`, or -1.
pub open spec fn last_active(occs: Seq<Occurrence>, now: ZonedTime, len: int) -> int
    decreases len,
{
    if len <= 0 {
        -1
    } else if is_active(occs[len - 1], now) {
        len - 1
    } else {
        last_active(occs, now, len - 1)
    }
}

/// The last of the first `len` occurrences whose point has been reached at `now`, or -1.
pub open spec fn last_reached(occs: Seq<Occurrence>, now: ZonedTime, len: int) -> int
    decreases len,
{
    if len <= 0 {
        -1
    } else if has_reached(occs[len - 1], now) {
        len - 1
    } else {
        last_reached(occs, now, len - 1)
    }
}

/// The earliest transition start after `now` among the first `len` occurrences,
/// as whole seconds and nanoseconds.
pub open spec fn earliest_start_after(occs: Seq<Occurrence>, now: ZonedTime, len: int) -> Option<(i64, u32)>
    decreases len,
{
    if len <= 0 {
        None
    } else {
        let rest = earliest_start_after(occs, now, len - 1);
        let s = (occs[len - 1].transition_start, occs[len - 1].start_nanos);
        if starts_after(occs[len - 1], now) {
            match rest {
                Some(m) => if instant_le(m.0 as int, m.1 as int, s.0 as int, s.1 as int) { Some(m) } else { Some(s) },
                None => Some(s),
            }
        } else {
            rest
        }
    }
}

/// Whole seconds from the start of the transition of `o` to `now`.
pub open spec fn elapsed_seconds(o: Occurrence, now: ZonedTime) -> int {
    whole_seconds_between(now.seconds as int, now.nanos as int, o.transition_start as int, o.start_nanos as int)
}

/// Whole seconds from the start of the transition of `o` to its point.
pub open spec fn transition_seconds(o: Occurrence) -> int {
    whole_seconds_between(o.target_time as int, o.target_nanos as int, o.transition_start as int, o.start_nanos as int)
}

/// The dim level part way through the transition of `o`: linear in the elapsed
/// share of the transition, rounded to the nearest hundredth of a percent, halves up.
pub open spec fn interpolated_dim(o: Occurrence, now: ZonedTime) -> int {
    let d = transition_seconds(o);
    if d <= 0 {
        o.target_dim_percent as int
    } else {
        let e = clamp(elapsed_seconds(o, now), 0, d);
        (2 * (o.start_dim_percent * d + (o.target_dim_percent - o.start_dim_percent) * e) + d) / (2 * d)
    }
}

/// The dim level that the occurrences give at `now`: the interpolated level of the
/// last active transition, else the target of the last point reached, else 0.
pub open spec fn scheduled_dim(occs: Seq<Occurrence>, now: ZonedTime) -> int {
    let a = last_active(occs, now, occs.len() as int);
    if a >= 0 {
        clamp_dim(interpolated_dim(occs[a], now))
    } else {
        let r = last_reached(occs, now, occs.len() as int);
        if r >= 0 {
            clamp_dim(occs[r].target_dim_percent as int)
        } else {
            0
        }
    }
}

/// The start (in seconds since the epoch) of the local day two days before the
/// local day of `now`, the first of the five days that evaluation lays out.
pub open spec fn evaluation_first_day(now: ZonedTime) -> int {
    ((now.seconds + now.offset_seconds) / 86400 - 2) * 86400 - now.offset_seconds
}

pub open spec fn evaluation_occurrences(points: Seq<TimedPoint>, now: ZonedTime) -> Seq<Occurrence> {
    occurrences(sort_by(points, time_of_day_le()), evaluation_first_day(now), 5)
}

/// The schedule at `now` for points laid out over the five local days around it.
pub open spec fn spec_evaluate(points: Seq<TimedPoint>, now: ZonedTime) -> (int, Option<(i64, u32)>) {
    let occs = evaluation_occurrences(points, now);
    (scheduled_dim(occs, now), earliest_start_after(occs, now, occs.len() as int))
}

pub proof fn lemma_occurrence_bounds(sorted: Seq<TimedPoint>, first_day: int, days: int, k: int)
    requires
        sorted.len() > 0,
        timed_points_wf(sorted),
        1 <= days <= 5,
        0 <= k < days * sorted.len(),
        -20_000_000_000_000 <= first_day <= 20_000_000_000_000,
    ensures
        first_day - 86340 <= (occurrence_at(sorted, first_day, k).transition_start as int),
        occurrence_at(sorted, first_day, k).transition_start <= occurrence_at(sorted, first_day, k).target_time,
        occurrence_at(sorted, first_day, k).target_time - occurrence_at(sorted, first_day, k).transition_start <= 86340,
        occurrence_at(sorted, first_day, k).target_time as int == first_day + (k / (sorted.len() as int)) * 86400 + sorted[k % (sorted.len() as int)].seconds,
        0 <= k / (sorted.len() as int) < days,
        0 <= occurrence_at(sorted, first_day, k).start_dim_percent <= MAX_DIM,
        0 <= occurrence_at(sorted, first_day, k).target_dim_percent <= MAX_DIM,
        first_day - 86340 <= (occurrence_at(sorted, first_day, k).target_time as int) <= first_day + 5 * 86400,
        occurrence_at(sorted, first_day, k).start_nanos < 2 * NANOS_PER_SECOND,
        occurrence_at(sorted, first_day, k).target_nanos < 2 * NANOS_PER_SECOND,
        0 <= transition_seconds(occurrence_at(sorted, first_day, k)) <= 86340,
{
    let n = sorted.len() as int;
    assert(0 <= k % n < n) by {
        vstd::arithmetic::div_mod::lemma_mod_bound(k, n);
    }
    assert(0 <= (k + n - 1) % n < n) by {
        vstd::arithmetic::div_mod::lemma_mod_bound(k + n - 1, n);
    }
    assert(0 <= k / n < days) by {
        vstd::arithmetic::div_mod::lemma_div_pos_is_pos(k, n);
        vstd::arithmetic::div_mod::lemma_div_is_ordered(k, days * n - 1, n);
        assert((days - 1) * n + (n - 1) == days * n - 1) by (nonlinear_arith);
        vstd::arithmetic::div_mod::lemma_fundamental_div_mod_converse(days * n - 1, n, days - 1, n - 1);
    }
    assert(timed_point_wf(sorted[k % n]));
    assert(timed_point_wf(sorted[(k + n - 1) % n]));
    let p = sorted[k % n];
    let target = first_day + (k / n) * 86400 + p.seconds;
    lemma_transition_seconds_bounds(target, p.nanos as int, p.transition_minutes as int);
}

/// A transition of `minutes` reaching its point at (`target`, `nanos`) lasts, in
/// chrono's whole seconds, its minutes, or one second less where a leap-second
/// point lies across midnight from its start.
pub proof fn lemma_transition_seconds_bounds(target: int, nanos: int, minutes: int)
    requires
        0 <= nanos < 2 * NANOS_PER_SECOND,
        0 <= minutes <= MAX_TRANSITION_MINUTES,
    ensures
        ({
            let w = whole_seconds_between(target, nanos, start_seconds(target, nanos, minutes), start_nanos(nanos, minutes));
            &&& 0 <= w <= 86340
            &&& (nanos >= NANOS_PER_SECOND && minutes > 0 ==> minutes * 60 - 1 <= w <= minutes * 60)
            &&& (!(nanos >= NANOS_PER_SECOND && minutes > 0) ==> w == minutes * 60)
        }),
{
    let np = NANOS_PER_SECOND as int;
    if nanos >= NANOS_PER_SECOND && minutes > 0 {
        vstd::arithmetic::div_mod::lemma_fundamental_div_mod_converse(np, np, 1, 0);
    } else {
        vstd::arithmetic::div_mod::lemma_fundamental_div_mod_converse(0, np, 0, 0);
    }
}

/// The largest magnitude of the seconds of the instants that evaluation handles.
pub open spec fn instant_in_range(s: int) -> bool {
    -15_000_000_000_000 <= s <= 15_000_000_000_000
}

fn day_second(s: i64) -> (r: i64)
    requires
        instant_in_range(s as int),
    ensures
        r == second_of_day(s as int),
{
    let shift_days: i64 = 200_000_000;
    let shifted: i64 = s + shift_days * 86400;
    proof {
        vstd::arithmetic::div_mod::lemma_fundamental_div_mod(s as int, 86400);
        vstd::arithmetic::div_mod::lemma_fundamental_div_mod_converse(
            shifted as int, 86400, s as int / 86400 + shift_days, s as int % 86400);
    }
    shifted % 86400
}

fn whole_seconds(a_s: i64, a_n: u32, b_s: i64, b_n: u32) -> (r: i64)
    requires
        instant_in_range(a_s as int),
        instant_in_range(b_s as int),
        a_n < 2 * NANOS_PER_SECOND,
        b_n < 2 * NANOS_PER_SECOND,
    ensures
        r == whole_seconds_between(a_s as int, a_n as int, b_s as int, b_n as int),
{
    let ad = day_second(a_s);
    let bd = day_second(b_s);
    let carry: i64 = if ad > bd && b_n >= NANOS_PER_SECOND {
        1
    } else if ad < bd && a_n >= NANOS_PER_SECOND {
        -1
    } else {
        0
    };
    let frac: i64 = a_n as i64 - b_n as i64;
    let np: i64 = NANOS_PER_SECOND as i64;
    let q: i64 = if frac >= np { 1 } else if frac >= 0 { 0 } else if frac >= -np { -1 } else { -2 };
    let rem: i64 = frac - q * np;
    proof {
        vstd::arithmetic::div_mod::lemma_fundamental_div_mod_converse(frac as int, np as int, q as int, rem as int);
    }
    let secs: i64 = a_s - b_s + carry + q;
    if secs < 0 && rem > 0 {
        secs + 1
    } else {
        secs
    }
}

fn is_active_at(o: &Occurrence, now: &ZonedTime) -> (r: bool)
    ensures
        r == is_active(*o, *now),
{
    (o.transition_start < now.seconds || (o.transition_start == now.seconds && o.start_nanos <= now.nanos))
        && (now.seconds < o.target_time || (now.seconds == o.target_time && now.nanos <= o.target_nanos))
}

fn interpolate(o: &Occurrence, now: &ZonedTime) -> (r: i64)
    requires
        0 <= transition_seconds(*o) <= 86400,
        0 <= o.start_dim_percent <= MAX_DIM,
        0 <= o.target_dim_percent <= MAX_DIM,
        instant_in_range(o.transition_start as int),
        instant_in_range(o.target_time as int),
        instant_in_range(now.seconds as int),
        o.start_nanos < 2 * NANOS_PER_SECOND,
        o.target_nanos < 2 * NANOS_PER_SECOND,
        now.nanos < 2 * NANOS_PER_SECOND,
    ensures
        r == interpolated_dim(*o, *now),
        0 <= r <= MAX_DIM,
{
    let d: i64 = whole_seconds(o.target_time, o.target_nanos, o.transition_start, o.start_nanos);
    if d <= 0 {
        return o.target_dim_percent;
    }
    let elapsed: i64 = whole_seconds(now.seconds, now.nanos, o.transition_start, o.start_nanos);
    let e: i64 = if elapsed < 0 { 0 } else if elapsed > d { d } else { elapsed };
    let s: i64 = o.start_dim_percent;
    let t: i64 = o.target_dim_percent;
    assert(0 <= s * d <= 9900 * 86400) by (nonlinear_arith)
        requires 0 <= s <= 9900, 0 < d <= 86400;
    assert(-9900 * 86400 <= (t - s) * e <= 9900 * 86400) by (nonlinear_arith)
        requires 0 <= s <= 9900, 0 <= t <= 9900, 0 <= e <= d, d <= 86400;
    let num: i64 = 2 * (s * d + (t - s) * e) + d;
    let r = num / (2 * d);
    proof {
        let lo = if s <= t { s } else { t };
        let hi = if s <= t { t } else { s };
        assert(lo * d <= s * d + (t - s) * e <= hi * d) by (nonlinear_arith)
            requires 0 <= e <= d, lo == if s <= t { s } else { t }, hi == if s <= t { t } else { s }, 0 <= s, 0 <= t;
        assert(0 <= num);
        assert((num as int) / (2 * d as int) <= hi) by (nonlinear_arith)
            requires num == 2 * (s * d + (t - s) * e) + d, s * d + (t - s) * e <= hi * d, d > 0, num >= 0;
        assert((num as int) / (2 * d as int) >= 0) by (nonlinear_arith)
            requires num >= 0, d > 0;
    }
    r
}

/// The next transition start of an evaluation, as a time in the offset of `now`.
pub open spec fn next_start_in_offset(start: Option<(i64, u32)>, now: ZonedTime) -> Option<ZonedTime> {
    match start {
        Some(s) => Some(ZonedTime { seconds: s.0, nanos: s.1, offset_seconds: now.offset_seconds }),
        None => None,
    }
}

/// The dim level and the next transition start at `now`, for enabled points with
/// parsed times. The points are stably sorted by time of day and laid out over the
/// five local days from two days before `now` to two days after; the current level
/// comes from the last transition under way (fading linearly, rounded to the
/// nearest hundredth), else from the last point reached, else it is 0; the next
/// transition start is the earliest one after `now`, in the offset of `now`.
pub fn evaluate_timed_points(points: &Vec<TimedPoint>, now: ZonedTime) -> (r: ScheduleEvaluation)
    requires
        0 < points.len() <= MAX_SCHEDULE_POINTS,
        timed_points_wf(points@),
        zoned_time_wf(now),
    ensures
        r.current_dim_percent == spec_evaluate(points@, now).0,
        r.next_transition_start == next_start_in_offset(spec_evaluate(points@, now).1, now),
{
    proof {
        lemma_sort_by_time_of_day_wf(points@);
    }
    let sorted = sort_by_time_of_day(points);
    let local: i64 = now.seconds + now.offset_seconds as i64;
    let shift_days: i64 = 200_000_000;
    let shifted: i64 = local + shift_days * 86400;
    let day: i64 = shifted / 86400 - shift_days;
    proof {
        vstd::arithmetic::div_mod::lemma_fundamental_div_mod(local as int, 86400);
        vstd::arithmetic::div_mod::lemma_fundamental_div_mod_converse(
            shifted as int, 86400, local as int / 86400 + shift_days, local as int % 86400);
    }
    assert(day == local as int / 86400);
    let first_day: i64 = (day - 2) * 86400 - now.offset_seconds as i64;
    assert(first_day == evaluation_first_day(now));
    assert(now.seconds - 3 * 86400 <= first_day <= now.seconds - 2 * 86400);
    let occs = build_occurrences(&sorted, first_day, 5);
    let ghost all = occs@;
    assert(all == evaluation_occurrences(points@, now));
    let n = occs.len();
    let mut active: usize = 0;
    let mut has_active = false;
    let mut reached: usize = 0;
    let mut has_reached_point = false;
    let mut next: i64 = 0;
    let mut next_nanos: u32 = 0;
    let mut has_next = false;
    let mut k: usize = 0;
    while k < n
        invariant
            n == occs@.len(),
            all == occs@,
            k <= n,
            has_active ==> active < k && last_active(all, now, k as int) == active as int
                && is_active(all[active as int], now),
            !has_active ==> last_active(all, now, k as int) == -1,
            has_reached_point ==> reached < k && last_reached(all, now, k as int) == reached as int
                && has_reached(all[reached as int], now),
            !has_reached_point ==> last_reached(all, now, k as int) == -1,
            earliest_start_after(all, now, k as int) == (if has_next { Some((next, next_nanos)) } else { None::<(i64, u32)> }),
        decreases n - k,
    {
        let o = occs[k];
        if is_active_at(&o, &now) {
            active = k;
            has_active = true;
        }
        if o.target_time < now.seconds || (o.target_time == now.seconds && o.target_nanos <= now.nanos) {
            reached = k;
            has_reached_point = true;
        }
        if now.seconds < o.transition_start || (now.seconds == o.transition_start && now.nanos < o.start_nanos) {
            if !has_next || o.transition_start < next || (o.transition_start == next && o.start_nanos < next_nanos) {
                next = o.transition_start;
                next_nanos = o.start_nanos;
            }
            has_next = true;
        }
        k = k + 1;
    }
    let current: i64 = if has_active {
        let o = occs[active];
        proof {
            crate::sorting::lemma_sort_by_len(points@, time_of_day_le());
            lemma_occurrence_bounds(sorted@, first_day as int, 5, active as int);
        }
        interpolate(&o, &now)
    } else if has_reached_point {
        let o = occs[reached];
        proof {
            crate::sorting::lemma_sort_by_len(points@, time_of_day_le());
            lemma_occurrence_bounds(sorted@, first_day as int, 5, reached as int);
        }
        clamp_dim_precise(o.target_dim_percent)
    } else {
        0
    };
    let next_transition_start = if has_next {
        Some(ZonedTime { seconds: next, nanos: next_nanos, offset_seconds: now.offset_seconds })
    } else {
        None
    };
    ScheduleEvaluation { current_dim_percent: clamp_dim_precise(current), next_transition_start }
}


/// The overlap that `find_overlap` reports lies within the two days it lays out.
pub proof fn lemma_overlap_bounds(points: Seq<TimedPoint>)
    requires
        0 < points.len() <= MAX_SCHEDULE_POINTS,
        timed_points_wf(points),
    ensures
        spec_find_overlap(points) matches Some((a, b)) ==> -1_000_000 <= a <= 1_000_000
            && -1_000_000 <= b <= 1_000_000,
{
    lemma_sort_by_time_of_day_wf(points);
    let sorted = sort_by(points, time_of_day_le());
    let occs = validation_occurrences(points);
    if let Some(k) = first_overlap_from(occs, 0) {
        lemma_first_overlap_range(occs, 0);
        assert(2 * sorted.len() == occs.len());
        lemma_occurrence_bounds(sorted, 0, 2, k);
        lemma_occurrence_bounds(sorted, 0, 2, k + 1);
    }
}

pub proof fn lemma_first_overlap_range(occs: Seq<Occurrence>, from: int)
    ensures
        first_overlap_from(occs, from) matches Some(k) ==> from <= k && k + 1 < occs.len(),
    decreases occs.len() - from,
{
    if from >= 0 && from + 1 < occs.len() && !starts_before_reached(occs[from + 1], occs[from]) {
        lemma_first_overlap_range(occs, from + 1);
    }
}


pub proof fn lemma_earliest_start_after(occs: Seq<Occurrence>, now: ZonedTime, len: int)
    requires
        0 <= len <= occs.len(),
    ensures
        earliest_start_after(occs, now, len) matches Some(s) ==>
            instant_lt(now.seconds as int, now.nanos as int, s.0 as int, s.1 as int)
            && (exists|k: int| 0 <= k < len && occs[k].transition_start == s.0 && occs[k].start_nanos == s.1)
            && (forall|k: int| 0 <= k < len && #[trigger] starts_after(occs[k], now)
                ==> instant_le(s.0 as int, s.1 as int, occs[k].transition_start as int, occs[k].start_nanos as int)),
        earliest_start_after(occs, now, len) is None ==> forall|k: int| 0 <= k < len ==> !#[trigger] starts_after(occs[k], now),
    decreases len,
{
    if len > 0 {
        lemma_earliest_start_after(occs, now, len - 1);
        let rest = earliest_start_after(occs, now, len - 1);
        if let Some(m) = rest {
            let k = choose|k: int| 0 <= k < len - 1 && occs[k].transition_start == m.0 && occs[k].start_nanos == m.1;
            assert(0 <= k < len && occs[k].transition_start == m.0 && occs[k].start_nanos == m.1);
        }
        if starts_after(occs[len - 1], now) {
            assert(occs[len - 1].transition_start == occs[len - 1].transition_start);
        }
    }
}

/// The next transition start is the earliest start of a transition still ahead
/// of `now`, and it lies strictly after `now`.
pub proof fn law_next_transition_is_earliest_ahead(points: Seq<TimedPoint>, now: ZonedTime)
    ensures
        ({
            let occs = evaluation_occurrences(points, now);
            &&& spec_evaluate(points, now).1 matches Some(s) ==>
                instant_lt(now.seconds as int, now.nanos as int, s.0 as int, s.1 as int)
                && (exists|k: int| 0 <= k < occs.len() && occs[k].transition_start == s.0 && occs[k].start_nanos == s.1)
                && (forall|k: int| 0 <= k < occs.len() && #[trigger] starts_after(occs[k], now)
                    ==> instant_le(s.0 as int, s.1 as int, occs[k].transition_start as int, occs[k].start_nanos as int))
            &&& spec_evaluate(points, now).1 is None ==> forall|k: int| 0 <= k < occs.len() ==> !#[trigger] starts_after(occs[k], now)
        }),
{
    let occs = evaluation_occurrences(points, now);
    lemma_earliest_start_after(occs, now, occs.len() as int);
}

/// Part way through a transition, the level lies between the level faded from
/// and the level faded to; it starts at the one and arrives at the other.
pub proof fn law_interpolation_between_endpoints(o: Occurrence, now: ZonedTime)
    requires
        0 <= o.start_dim_percent,
        0 <= o.target_dim_percent,
    ensures
        o.start_dim_percent <= o.target_dim_percent ==> o.start_dim_percent <= interpolated_dim(o, now) <= o.target_dim_percent,
        o.target_dim_percent <= o.start_dim_percent ==> o.target_dim_percent <= interpolated_dim(o, now) <= o.start_dim_percent,
        elapsed_seconds(o, now) <= 0 && transition_seconds(o) > 0 ==> interpolated_dim(o, now) == o.start_dim_percent,
        elapsed_seconds(o, now) >= transition_seconds(o) ==> interpolated_dim(o, now) == o.target_dim_percent,
{
    let d = transition_seconds(o);
    if d > 0 {
        let e = clamp(elapsed_seconds(o, now), 0, d);
        let s = o.start_dim_percent as int;
        let t = o.target_dim_percent as int;
        let num = 2 * (s * d + (t - s) * e) + d;
        let lo = if s <= t { s } else { t };
        let hi = if s <= t { t } else { s };
        assert(lo * d <= s * d + (t - s) * e <= hi * d) by (nonlinear_arith)
            requires 0 <= e <= d, lo == if s <= t { s } else { t }, hi == if s <= t { t } else { s };
        assert(num / (2 * d) <= hi) by (nonlinear_arith)
            requires num == 2 * (s * d + (t - s) * e) + d, s * d + (t - s) * e <= hi * d, d > 0;
        assert(num / (2 * d) >= lo) by (nonlinear_arith)
            requires num == 2 * (s * d + (t - s) * e) + d, s * d + (t - s) * e >= lo * d, d > 0;
        if e == 0 {
            assert(num / (2 * d) == s) by (nonlinear_arith)
                requires num == 2 * (s * d + (t - s) * e) + d, e == 0, d > 0;
        }
        if e == d {
            assert(num / (2 * d) == t) by (nonlinear_arith)
                requires num == 2 * (s * d + (t - s) * d) + d, d > 0;
        }
    }
}


pub proof fn lemma_time_of_day_le_total_preorder()
    ensures
        is_total_preorder(time_of_day_le()),
{
}

/// Whether the point of `a` is reached no later than that of `b`.
pub open spec fn occ_target_le(a: Occurrence, b: Occurrence) -> bool {
    instant_le(a.target_time as int, a.target_nanos as int, b.target_time as int, b.target_nanos as int)
}

/// Laid out day by day from points sorted by time, occurrences come in the order
/// of their target times.
pub proof fn lemma_occurrence_targets_sorted(sorted: Seq<TimedPoint>, first_day: int, days: int, k1: int, k2: int)
    requires
        sorted.len() > 0,
        timed_points_wf(sorted),
        is_sorted_by(sorted, time_of_day_le()),
        1 <= days <= 5,
        -20_000_000_000_000 <= first_day <= 20_000_000_000_000,
        0 <= k1 <= k2 < days * sorted.len(),
    ensures
        occ_target_le(occurrence_at(sorted, first_day, k1), occurrence_at(sorted, first_day, k2)),
{
    let n = sorted.len() as int;
    lemma_occurrence_bounds(sorted, first_day, days, k1);
    lemma_occurrence_bounds(sorted, first_day, days, k2);
    vstd::arithmetic::div_mod::lemma_div_is_ordered(k1, k2, n);
    let d1 = k1 / n;
    let d2 = k2 / n;
    vstd::arithmetic::div_mod::lemma_fundamental_div_mod(k1, n);
    vstd::arithmetic::div_mod::lemma_fundamental_div_mod(k2, n);
    vstd::arithmetic::div_mod::lemma_mod_bound(k1, n);
    vstd::arithmetic::div_mod::lemma_mod_bound(k2, n);
    assert(timed_point_wf(sorted[k1 % n]));
    if d1 < d2 {
        assert(d1 * 86400 + 86400 <= d2 * 86400) by (nonlinear_arith)
            requires d1 < d2;
    } else {
        assert(d1 == d2);
        assert(k1 % n <= k2 % n) by (nonlinear_arith)
            requires k1 == n * d1 + k1 % n, k2 == n * d2 + k2 % n, d1 == d2, k1 <= k2;
        if k1 % n < k2 % n {
            assert(time_of_day_le()(sorted[k1 % n], sorted[k2 % n]));
        }
    }
}

pub proof fn lemma_last_active(occs: Seq<Occurrence>, now: ZonedTime, len: int)
    requires
        0 <= len <= occs.len(),
    ensures
        -1 <= last_active(occs, now, len) < len,
        last_active(occs, now, len) >= 0 ==> is_active(occs[last_active(occs, now, len)], now),
        forall|j: int| last_active(occs, now, len) < j < len ==> !#[trigger] is_active(occs[j], now),
    decreases len,
{
    if len > 0 && !is_active(occs[len - 1], now) {
        lemma_last_active(occs, now, len - 1);
    }
}

/// The transition that sets the level is the active one with the latest target
/// time (the last such, where several share it): no later transition is active,
/// and every active one is reached no later than it.
pub proof fn law_active_transition_is_latest(points: Seq<TimedPoint>, now: ZonedTime)
    requires
        0 < points.len() <= MAX_SCHEDULE_POINTS,
        timed_points_wf(points),
        zoned_time_wf(now),
    ensures
        ({
            let occs = evaluation_occurrences(points, now);
            let a = last_active(occs, now, occs.len() as int);
            a >= 0 ==> is_active(occs[a], now)
                && (forall|j: int| a < j < occs.len() ==> !#[trigger] is_active(occs[j], now))
                && (forall|j: int| 0 <= j < occs.len() && #[trigger] is_active(occs[j], now) ==> occ_target_le(occs[j], occs[a]))
        }),
{
    let occs = evaluation_occurrences(points, now);
    let sorted = sort_by(points, time_of_day_le());
    lemma_sort_by_time_of_day_wf(points);
    lemma_time_of_day_le_total_preorder();
    crate::sorting::lemma_sort_by_sorted(points, time_of_day_le());
    lemma_last_active(occs, now, occs.len() as int);
    let a = last_active(occs, now, occs.len() as int);
    let first = evaluation_first_day(now);
    assert(-20_000_000_000_000 <= first <= 20_000_000_000_000);
    if a >= 0 {
        assert forall|j: int| 0 <= j < occs.len() && #[trigger] is_active(occs[j], now) implies occ_target_le(occs[j], occs[a]) by {
            assert(j <= a);
            lemma_occurrence_targets_sorted(sorted, first, 5, j, a);
        }
    }
}


pub proof fn lemma_last_reached(occs: Seq<Occurrence>, now: ZonedTime, len: int)
    requires
        0 <= len <= occs.len(),
    ensures
        -1 <= last_reached(occs, now, len) < len,
        last_reached(occs, now, len) >= 0 ==> has_reached(occs[last_reached(occs, now, len)], now),
        forall|j: int| last_reached(occs, now, len) < j < len ==> !#[trigger] has_reached(occs[j], now),
    decreases len,
{
    if len > 0 && !has_reached(occs[len - 1], now) {
        lemma_last_reached(occs, now, len - 1);
    }
}

/// Between transitions the level is the target of the point reached most
/// recently: the reached point with the latest target time (the last such).
pub proof fn law_idle_level_is_latest_reached(points: Seq<TimedPoint>, now: ZonedTime)
    requires
        0 < points.len() <= MAX_SCHEDULE_POINTS,
        timed_points_wf(points),
        zoned_time_wf(now),
    ensures
        ({
            let occs = evaluation_occurrences(points, now);
            let r = last_reached(occs, now, occs.len() as int);
            r >= 0 ==> has_reached(occs[r], now)
                && (forall|j: int| r < j < occs.len() ==> !#[trigger] has_reached(occs[j], now))
                && (forall|j: int| 0 <= j < occs.len() && #[trigger] has_reached(occs[j], now) ==> occ_target_le(occs[j], occs[r]))
        }),
{
    let occs = evaluation_occurrences(points, now);
    let sorted = sort_by(points, time_of_day_le());
    lemma_sort_by_time_of_day_wf(points);
    lemma_time_of_day_le_total_preorder();
    crate::sorting::lemma_sort_by_sorted(points, time_of_day_le());
    lemma_last_reached(occs, now, occs.len() as int);
    let r = last_reached(occs, now, occs.len() as int);
    let first = evaluation_first_day(now);
    if r >= 0 {
        assert forall|j: int| 0 <= j < occs.len() && #[trigger] has_reached(occs[j], now) implies occ_target_le(occs[j], occs[r]) by {
            assert(j <= r);
            lemma_occurrence_targets_sorted(sorted, first, 5, j, r);
        }
    }
}

/// `t` one day later, in the same offset.
pub open spec fn one_day_later(t: ZonedTime) -> ZonedTime {
    ZonedTime { seconds: (t.seconds + 86400) as i64, ..t }
}

/// The occurrence `o` one day later.
pub open spec fn occurrence_one_day_later(o: Occurrence) -> Occurrence {
    Occurrence {
        transition_start: (o.transition_start + 86400) as i64,
        target_time: (o.target_time + 86400) as i64,
        ..o
    }
}

/// A transition start one day later.
pub open spec fn start_one_day_later(start: Option<(i64, u32)>) -> Option<(i64, u32)> {
    match start {
        Some(m) => Some(((m.0 + 86400) as i64, m.1)),
        None => None,
    }
}

/// Laid out from a day later, each occurrence comes a day later.
pub proof fn lemma_occurrence_one_day_later(sorted: Seq<TimedPoint>, first_day: int, days: int, k: int)
    requires
        sorted.len() > 0,
        1 <= days <= 5,
        0 <= k < days * sorted.len(),
        -12_000_000_000_000 <= first_day <= 12_000_000_000_000,
    ensures
        occurrence_at(sorted, first_day + 86400, k) == occurrence_one_day_later(occurrence_at(sorted, first_day, k)),
        -13_000_000_000_000 <= occurrence_at(sorted, first_day, k).transition_start <= 13_000_000_000_000,
        -13_000_000_000_000 <= occurrence_at(sorted, first_day, k).target_time <= 13_000_000_000_000,
{
    let n = sorted.len() as int;
    assert(0 <= k % n < n) by {
        vstd::arithmetic::div_mod::lemma_mod_bound(k, n);
    }
    assert(0 <= k / n < days) by {
        vstd::arithmetic::div_mod::lemma_div_pos_is_pos(k, n);
        vstd::arithmetic::div_mod::lemma_div_is_ordered(k, days * n - 1, n);
        assert((days - 1) * n + (n - 1) == days * n - 1) by (nonlinear_arith);
        vstd::arithmetic::div_mod::lemma_fundamental_div_mod_converse(days * n - 1, n, days - 1, n - 1);
    }
}

/// Whole seconds between two instants do not change when both move by a day.
pub proof fn lemma_whole_seconds_one_day_later(a_s: int, a_n: int, b_s: int, b_n: int)
    ensures
        whole_seconds_between(a_s + 86400, a_n, b_s + 86400, b_n) == whole_seconds_between(a_s, a_n, b_s, b_n),
{
    vstd::arithmetic::div_mod::lemma_mod_add_multiples_vanish(a_s, 86400);
    vstd::arithmetic::div_mod::lemma_mod_add_multiples_vanish(b_s, 86400);
}

pub open spec fn occurrence_in_range(o: Occurrence) -> bool {
    &&& -13_000_000_000_000 <= o.transition_start <= 13_000_000_000_000
    &&& -13_000_000_000_000 <= o.target_time <= 13_000_000_000_000
}

/// What evaluation reads of occurrences does not change when they and `now` all
/// move by a day, but for the next transition start, which moves by a day too.
pub proof fn lemma_scan_one_day_later(occs: Seq<Occurrence>, later: Seq<Occurrence>, now: ZonedTime, len: int)
    requires
        later.len() == occs.len(),
        0 <= len <= occs.len(),
        forall|k: int| 0 <= k < occs.len() ==> #[trigger] later[k] == occurrence_one_day_later(occs[k]),
        forall|k: int| 0 <= k < occs.len() ==> #[trigger] occurrence_in_range(occs[k]),
        -13_000_000_000_000 <= now.seconds <= 13_000_000_000_000,
    ensures
        last_active(later, one_day_later(now), len) == last_active(occs, now, len),
        last_reached(later, one_day_later(now), len) == last_reached(occs, now, len),
        earliest_start_after(later, one_day_later(now), len) == start_one_day_later(earliest_start_after(occs, now, len)),
    decreases len,
{
    if len > 0 {
        lemma_scan_one_day_later(occs, later, now, len - 1);
        assert(occurrence_in_range(occs[len - 1]));
        assert(later[len - 1] == occurrence_one_day_later(occs[len - 1]));
        lemma_earliest_start_after(occs, now, len - 1);
        let rest = earliest_start_after(occs, now, len - 1);
        if let Some(m) = rest {
            let k = choose|k: int| 0 <= k < len - 1 && occs[k].transition_start == m.0 && occs[k].start_nanos == m.1;
            assert(occurrence_in_range(occs[k]));
        }
    }
}

/// One day later the evaluation gives the same level, and the next transition
/// start, if any, is one day later.
pub proof fn lemma_evaluate_one_day_later(points: Seq<TimedPoint>, now: ZonedTime)
    requires
        zoned_time_wf(now),
        zoned_time_wf(one_day_later(now)),
    ensures
        spec_evaluate(points, one_day_later(now)) == (spec_evaluate(points, now).0, start_one_day_later(spec_evaluate(points, now).1)),
{
    let later_now = one_day_later(now);
    let local = now.seconds + now.offset_seconds;
    vstd::arithmetic::div_mod::lemma_fundamental_div_mod(local, 86400);
    vstd::arithmetic::div_mod::lemma_fundamental_div_mod_converse(local + 86400, 86400, local / 86400 + 1, local % 86400);
    assert(evaluation_first_day(later_now) == evaluation_first_day(now) + 86400);
    let fd = evaluation_first_day(now);
    assert(-12_000_000_000_000 <= fd <= 12_000_000_000_000);
    let sorted = sort_by(points, time_of_day_le());
    let occs = evaluation_occurrences(points, now);
    let later = evaluation_occurrences(points, later_now);
    if sorted.len() > 0 {
        assert forall|k: int| 0 <= k < occs.len() implies #[trigger] later[k] == occurrence_one_day_later(occs[k])
            && occurrence_in_range(occs[k]) by {
            lemma_occurrence_one_day_later(sorted, fd, 5, k);
        }
    } else {
        assert(occs.len() == 0);
    }
    assert forall|k: int| 0 <= k < occs.len() implies #[trigger] occurrence_in_range(occs[k]) by {
        assert(later[k] == occurrence_one_day_later(occs[k]));
    }
    lemma_scan_one_day_later(occs, later, now, occs.len() as int);
    let a = last_active(occs, now, occs.len() as int);
    if a >= 0 {
        lemma_last_active(occs, now, occs.len() as int);
        let o = occs[a];
        lemma_whole_seconds_one_day_later(o.target_time as int, o.target_nanos as int, o.transition_start as int, o.start_nanos as int);
        lemma_whole_seconds_one_day_later(now.seconds as int, now.nanos as int, o.transition_start as int, o.start_nanos as int);
        assert(interpolated_dim(later[a], later_now) == interpolated_dim(o, now));
    } else {
        let r = last_reached(occs, now, occs.len() as int);
        if r >= 0 {
            lemma_last_reached(occs, now, occs.len() as int);
            assert(later[r] == occurrence_one_day_later(occs[r]));
        }
    }
}

/// Each transition fades from the level that the point before it in time sets:
/// an occurrence starts from the target of the occurrence just before it, and
/// the first one from the target of the last point of a day.
pub proof fn law_fade_starts_from_previous_point(sorted: Seq<TimedPoint>, first_day: int, days: int, k: int)
    requires
        sorted.len() > 0,
        0 <= k < days * sorted.len(),
    ensures
        k > 0 ==> occurrence_at(sorted, first_day, k).start_dim_percent
            == occurrence_at(sorted, first_day, k - 1).target_dim_percent,
        k == 0 ==> occurrence_at(sorted, first_day, k).start_dim_percent == sorted[sorted.len() - 1].target_dim_percent,
{
    let n = sorted.len() as int;
    if k > 0 {
        vstd::arithmetic::div_mod::lemma_mod_add_multiples_vanish(k - 1, n);
        assert(k + n - 1 == n + (k - 1));
    } else {
        vstd::arithmetic::div_mod::lemma_small_mod((n - 1) as nat, n as nat);
    }
}

proof fn lemma_first_overlap_characterized(occs: Seq<Occurrence>, from: int)
    requires
        0 <= from,
    ensures
        first_overlap_from(occs, from) is None <==> (forall|k: int| from + 1 <= k < occs.len() ==>
            (#[trigger] occs[k]).transition_start > occs[k - 1].target_time
            || (occs[k].transition_start == occs[k - 1].target_time && occs[k].start_nanos >= occs[k - 1].target_nanos)),
        first_overlap_from(occs, from) matches Some(k) ==> from <= k && k + 1 < occs.len()
            && (occs[k + 1].transition_start < occs[k].target_time
            || (occs[k + 1].transition_start == occs[k].target_time && occs[k + 1].start_nanos < occs[k].target_nanos)),
    decreases occs.len() - from,
{
    if from + 1 < occs.len() && !starts_before_reached(occs[from + 1], occs[from]) {
        lemma_first_overlap_characterized(occs, from + 1);
        assert(occs[from + 1].transition_start > occs[from].target_time
            || (occs[from + 1].transition_start == occs[from].target_time && occs[from + 1].start_nanos >= occs[from].target_nanos));
    }
}

/// Validation refuses a schedule for overlap exactly when, laid out over two days
/// in time order, some transition starts strictly before the point ahead of it is
/// reached: a transition may start at the very instant that point is reached. The
/// report names such a start and the point it overlaps.
pub proof fn law_overlap_is_a_strictly_early_start(points: Seq<TimedPoint>)
    ensures
        ({
            let occs = validation_occurrences(points);
            &&& spec_find_overlap(points) is None <==> (forall|k: int| 1 <= k < occs.len() ==>
                (#[trigger] occs[k]).transition_start > occs[k - 1].target_time
                || (occs[k].transition_start == occs[k - 1].target_time && occs[k].start_nanos >= occs[k - 1].target_nanos))
            &&& spec_find_overlap(points) matches Some((a, b)) ==> exists|k: int| 0 <= k && k + 1 < occs.len()
                && a == occs[k + 1].transition_start && b == (#[trigger] occs[k]).target_time
                && (occs[k + 1].transition_start < occs[k].target_time
                || (occs[k + 1].transition_start == occs[k].target_time && occs[k + 1].start_nanos < occs[k].target_nanos))
        }),
{
    let occs = validation_occurrences(points);
    lemma_first_overlap_characterized(occs, 0);
    if let Some(k) = first_overlap_from(occs, 0) {
        assert(occs[k].target_time == occs[k].target_time);
    }
}

} // verus!

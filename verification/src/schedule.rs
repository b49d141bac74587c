use vstd::prelude::*;
use vstd::string::StringExecFns;
use chrono::Timelike;

use crate::models::{
    duplicate_points, lemma_points_view, points_view, zoned_time_wf, AppSettings, AppSettingsView,
    EffectiveDimMode, EffectiveDimState, ManualOverrideSession, ScheduleEvaluation, SchedulePoint, SchedulePointView, ZonedTime, CURRENT_VERSION, MAX_DIM, MAX_SCHEDULE_POINTS,
};
use crate::sorting::{is_sorted_by, is_total_preorder, lemma_insert_by_at, sort_by};
use crate::timeline::{
    evaluate_timed_points, find_overlap, lemma_overlap_bounds, next_start_in_offset, overlap_message,
    overlap_message_text, spec_evaluate, lemma_evaluate_one_day_later, one_day_later, spec_find_overlap, timed_points_wf, TimedPoint,
};
use crate::text::{chars_le, chars_of, lemma_seq_le_total, lemma_seq_le_transitive, seq_le};

verus! {

/// The lowest and highest manual dim step, in hundredths of a percent.
pub const MIN_DIM_STEP: i64 = 100;
pub const MAX_DIM_STEP: i64 = 2500;

/// The longest transition, in minutes (one minute short of a day).
pub const MAX_TRANSITION_MINUTES: i32 = 1439;

pub open spec fn clamp(v: int, lo: int, hi: int) -> int {
    if v < lo {
        lo
    } else if v > hi {
        hi
    } else {
        v
    }
}

/// A dim level limited to 0%..99%; levels are held in hundredths of a percent.
pub open spec fn clamp_dim(v: int) -> int {
    clamp(v, 0, MAX_DIM as int)
}

/// Limits a dim level, given in hundredths of a percent, to 0%..=99%.
pub fn clamp_dim_precise(value: i64) -> (r: i64)
    ensures
        r == clamp_dim(value as int),
        0 <= r <= MAX_DIM,
{
    if value < 0 {
        0
    } else if value > MAX_DIM {
        MAX_DIM
    } else {
        value
    }
}

/// A point with its dim target and transition brought into range.
pub open spec fn normalize_point(p: SchedulePointView) -> SchedulePointView {
    SchedulePointView {
        target_dim_percent: clamp_dim(p.target_dim_percent as int) as i64,
        transition_minutes: clamp(p.transition_minutes as int, 0, MAX_TRANSITION_MINUTES as int) as i32,
        ..p
    }
}

/// Orders points by the text of their time of day, as `String::cmp` does.
pub open spec fn time_text_le() -> spec_fn(SchedulePointView, SchedulePointView) -> bool {
    |a: SchedulePointView, b: SchedulePointView| seq_le(a.time_of_day, b.time_of_day)
}

/// What `normalize_points` makes of a list of points: each point brought into
/// range, then the list stably sorted by the text of the time of day.
pub open spec fn normalized_points(points: Seq<SchedulePointView>) -> Seq<SchedulePointView> {
    sort_by(points.map_values(|p: SchedulePointView| normalize_point(p)), time_text_le())
}

pub proof fn lemma_time_text_le_total_preorder()
    ensures
        is_total_preorder(time_text_le()),
{
    assert forall|a: SchedulePointView, b: SchedulePointView| #[trigger]
        time_text_le()(a, b) || time_text_le()(b, a) by {
        lemma_seq_le_total(a.time_of_day, b.time_of_day);
    }
    assert forall|a: SchedulePointView, b: SchedulePointView, c: SchedulePointView| #[trigger]
        time_text_le()(a, b) && #[trigger] time_text_le()(b, c) implies time_text_le()(a, c) by {
        lemma_seq_le_transitive(a.time_of_day, b.time_of_day, c.time_of_day);
    }
}

fn point_time_le(a: &SchedulePoint, b: &SchedulePoint) -> (r: bool)
    ensures
        r == time_text_le()(a@, b@),
{
    let ac = chars_of(a.time_of_day.as_str());
    let bc = chars_of(b.time_of_day.as_str());
    chars_le(&ac, &bc)
}

/// Stable insertion sort of points by the text of their time of day.
fn sort_points_by_time_text(points: Vec<SchedulePoint>) -> (r: Vec<SchedulePoint>)
    ensures
        points_view(r@) == sort_by(points_view(points@), time_text_le()),
{
    let mut input = points;
    let ghost given = points_view(input@);
    let mut sorted: Vec<SchedulePoint> = Vec::new();
    let mut consumed: usize = 0;
    let total = input.len();
    proof {
        lemma_points_view(input@);
    }
    while consumed < total
        invariant
            total == given.len(),
            consumed <= total,
            input@.len() == total - consumed,
            forall|k: int| 0 <= k < input@.len() ==> #[trigger] input@[k]@ == given[consumed + k],
            points_view(sorted@) == sort_by(given.take(consumed as int), time_text_le()),
        decreases total - consumed,
    {
        let x = input.remove(0);
        assert(x@ == given[consumed as int]);
        let ghost prefix = given.take(consumed as int);
        let ghost before = points_view(sorted@);
        proof {
            lemma_points_view(sorted@);
        }
        let mut j: usize = sorted.len();
        while j > 0 && !point_time_le(&sorted[j - 1], &x)
            invariant
                j <= sorted@.len(),
                before == points_view(sorted@),
                forall|k: int| j <= k < sorted@.len() ==> !time_text_le()(#[trigger] before[k], x@),
            decreases j,
        {
            proof {
                lemma_points_view(sorted@);
            }
            j = j - 1;
        }
        proof {
            lemma_points_view(sorted@);
            lemma_insert_by_at(before, x@, time_text_le(), j as int);
        }
        sorted.insert(j, x);
        proof {
            lemma_points_view(sorted@);
            assert(points_view(sorted@) =~= before.take(j as int) + seq![given[consumed as int]] + before.skip(j as int));
            assert(given.take(consumed as int + 1).drop_last() =~= prefix);
            assert(given.take(consumed as int + 1).last() == given[consumed as int]);
        }
        consumed = consumed + 1;
    }
    assert(given.take(total as int) =~= given);
    sorted
}

/// Brings each point's dim target into 0%..=99% and its transition into
/// 0..=1439 minutes, then orders the points by the text of their time of day,
/// keeping points with equal text in their given order.
pub fn normalize_points(points: Vec<SchedulePoint>) -> (r: Vec<SchedulePoint>)
    ensures
        points_view(r@) == normalized_points(points_view(points@)),
{
    let mut input = points;
    let ghost given = points_view(input@);
    let mut mapped: Vec<SchedulePoint> = Vec::new();
    let n = input.len();
    proof {
        lemma_points_view(input@);
    }
    let mut i: usize = 0;
    while i < n
        invariant
            n == given.len(),
            i <= n,
            input@.len() == n - i,
            forall|k: int| 0 <= k < input@.len() ==> #[trigger] input@[k]@ == given[i + k],
            points_view(mapped@) == given.take(i as int).map_values(
                |p: SchedulePointView| normalize_point(p),
            ),
        decreases n - i,
    {
        let mut p = input.remove(0);
        let ghost orig_p = p@;
        assert(orig_p == given[i as int]);
        p.target_dim_percent = clamp_dim_precise(p.target_dim_percent);
        if p.transition_minutes < 0 {
            p.transition_minutes = 0;
        } else if p.transition_minutes > MAX_TRANSITION_MINUTES {
            p.transition_minutes = MAX_TRANSITION_MINUTES;
        }
        assert(p@ == normalize_point(orig_p));
        let ghost before = mapped@;
        mapped.push(p);
        proof {
            lemma_points_view(before);
            let target = given.take(i as int + 1).map_values(
                |p: SchedulePointView| normalize_point(p),
            );
            let prev = given.take(i as int).map_values(
                |p: SchedulePointView| normalize_point(p),
            );
            assert forall|k: int| 0 <= k < i implies #[trigger] target[k] == prev[k] by {
                assert(given.take(i as int + 1)[k] == given.take(i as int)[k]);
            }
            lemma_points_view(mapped@);
            assert(points_view(mapped@) =~= given.take(i as int + 1).map_values(
                |p: SchedulePointView| normalize_point(p),
            ));
        }
        i = i + 1;
    }
    assert(given.take(n as int) =~= given);
    sort_points_by_time_text(mapped)
}

/// What `normalize_settings` makes of settings.
pub open spec fn normalized_settings(s: AppSettingsView) -> AppSettingsView {
    AppSettingsView {
        version: CURRENT_VERSION,
        dim_step_percent: clamp(s.dim_step_percent as int, MIN_DIM_STEP as int, MAX_DIM_STEP as int) as i64,
        schedule_points: normalized_points(s.schedule_points),
        ..s
    }
}

/// Stamps the current format version, limits the dim step to 1%..=25% and
/// normalizes the schedule points; everything else is kept.
pub fn normalize_settings(settings: AppSettings) -> (r: AppSettings)
    ensures
        r@ == normalized_settings(settings@),
{
    let mut normalized = settings;
    normalized.version = CURRENT_VERSION;
    if normalized.dim_step_percent < MIN_DIM_STEP {
        normalized.dim_step_percent = MIN_DIM_STEP;
    } else if normalized.dim_step_percent > MAX_DIM_STEP {
        normalized.dim_step_percent = MAX_DIM_STEP;
    }
    let mut points: Vec<SchedulePoint> = Vec::new();
    std::mem::swap(&mut points, &mut normalized.schedule_points);
    normalized.schedule_points = normalize_points(points);
    normalized
}


/// What `chrono::NaiveTime::parse_from_str(text, format)` yields, read as the
/// whole seconds since midnight and the nanoseconds of the second (from
/// 1_000_000_000 on within a leap second), or `None` where chrono refuses the text.
pub uninterp spec fn chrono_time_of_day(text: Seq<char>, format: Seq<char>) -> Option<(u32, u32)>;

/// `chrono::NaiveTime::parse_from_str`, read by `num_seconds_from_midnight` and
/// `nanosecond`. The result is chrono's, named by `chrono_time_of_day`; the one
/// fact stated of it is the range chrono documents for the two: a parsed time lies
/// within one day, and its nanoseconds stay under two seconds' worth (a leap second
/// `hh:mm:60` is the second `hh:mm:59` with 1_000_000_000 nanoseconds or more).
#[verifier::external_body]
fn parse_naive_time(text: &str, format: &str) -> (r: Option<(u32, u32)>)
    ensures
        r == chrono_time_of_day(text@, format@),
        r matches Some(t) ==> t.0 < 86400 && t.1 < 2_000_000_000,
{
    match chrono::NaiveTime::parse_from_str(text, format) {
        Ok(time) => Some((time.num_seconds_from_midnight(), time.nanosecond())),
        Err(_) => None,
    }
}

pub open spec fn hms_format() -> Seq<char> {
    seq!['%', 'H', ':', '%', 'M', ':', '%', 'S']
}

pub open spec fn hm_format() -> Seq<char> {
    seq!['%', 'H', ':', '%', 'M']
}

/// A time of day as `parse_time` reads it: `HH:MM:SS` first, then `HH:MM`.
pub open spec fn parsed_time(text: Seq<char>) -> Option<(u32, u32)> {
    match chrono_time_of_day(text, hms_format()) {
        Some(t) => Some(t),
        None => chrono_time_of_day(text, hm_format()),
    }
}

pub open spec fn invalid_time_message(text: Seq<char>) -> Seq<char> {
    "Invalid time value '"@ + text + "'."@
}

/// Reads a time of day as whole seconds since midnight and nanoseconds,
/// accepting `HH:MM:SS` and `HH:MM`.
pub fn parse_time(value: &str) -> (r: Result<(u32, u32), String>)
    ensures
        r matches Ok(t) ==> parsed_time(value@) == Some(t) && t.0 < 86400 && t.1 < 2_000_000_000,
        r matches Err(m) ==> parsed_time(value@) is None && m@ == invalid_time_message(value@),
{
    proof {
        reveal_strlit("%H:%M:%S");
        reveal_strlit("%H:%M");
    }
    let hms = "%H:%M:%S";
    let hm = "%H:%M";
    assert(hms@ =~= hms_format());
    assert(hm@ =~= hm_format());
    match parse_naive_time(value, hms) {
        Some(t) => Ok(t),
        None => match parse_naive_time(value, hm) {
            Some(t) => Ok(t),
            None => {
                let mut message = String::from_str("Invalid time value '");
                message.append(value);
                message.append("'.");
                Err(message)
            },
        },
    }
}


/// The enabled points of `s`, in order.
pub open spec fn enabled_points(s: Seq<SchedulePointView>) -> Seq<SchedulePointView>
    decreases s.len(),
{
    if s.len() == 0 {
        s
    } else {
        let r = enabled_points(s.drop_last());
        if s.last().enabled {
            r.push(s.last())
        } else {
            r
        }
    }
}

pub open spec fn transition_in_range(p: SchedulePointView) -> bool {
    0 <= p.transition_minutes <= MAX_TRANSITION_MINUTES
}

/// The first point at or after `from` whose time of day does not parse.
pub open spec fn first_unparsed(s: Seq<SchedulePointView>, from: int) -> Option<int>
    decreases s.len() - from,
{
    if from < 0 || from >= s.len() {
        None
    } else if parsed_time(s[from].time_of_day) is None {
        Some(from)
    } else {
        first_unparsed(s, from + 1)
    }
}

/// The points with their parsed times (each of which is assumed to parse).
pub open spec fn timed_points(s: Seq<SchedulePointView>) -> Seq<TimedPoint> {
    Seq::new(
        s.len(),
        |i: int|
            TimedPoint {
                seconds: parsed_time(s[i].time_of_day).unwrap().0,
                nanos: parsed_time(s[i].time_of_day).unwrap().1,
                transition_minutes: s[i].transition_minutes,
                target_dim_percent: clamp_dim(s[i].target_dim_percent as int) as i64,
            },
    )
}

pub open spec fn transition_range_message() -> Seq<char> {
    "Transition duration must be between 0 and 1439 minutes."@
}

/// What `validate_points` decides: the enabled points, ordered by the text of
/// their time, are refused for a transition outside 0..=1439 minutes, then for
/// the first time of day that does not parse, then for the first transition that
/// starts before the point ahead of it is reached, over two consecutive days.
pub open spec fn spec_validate_points(points: Seq<SchedulePointView>) -> Result<(), Seq<char>> {
    let e = sort_by(enabled_points(points), time_text_le());
    if e.len() == 0 {
        Ok(())
    } else if exists|i: int| 0 <= i < e.len() && !transition_in_range(#[trigger] e[i]) {
        Err(transition_range_message())
    } else {
        match first_unparsed(e, 0) {
            Some(i) => Err(invalid_time_message(e[i].time_of_day)),
            None => match spec_find_overlap(timed_points(e)) {
                Some((a, b)) => Err(overlap_message(a as int, b as int)),
                None => Ok(()),
            },
        }
    }
}

fn enabled_copies(points: &[SchedulePoint]) -> (r: Vec<SchedulePoint>)
    ensures
        points_view(r@) == enabled_points(points_view(points@)),
{
    let mut r: Vec<SchedulePoint> = Vec::new();
    let mut i: usize = 0;
    proof {
        lemma_points_view(points@);
        lemma_points_view(r@);
        assert(points_view(points@).take(0) =~= Seq::<SchedulePointView>::empty());
    }
    while i < points.len()
        invariant
            i <= points@.len(),
            points_view(r@) == enabled_points(points_view(points@).take(i as int)),
        decreases points.len() - i,
    {
        proof {
            lemma_points_view(points@);
            assert(points_view(points@).take(i as int + 1).drop_last() =~= points_view(points@).take(i as int));
            assert(points_view(points@).take(i as int + 1).last() == points@[i as int]@);
        }
        if points[i].enabled {
            let ghost before = r@;
            let p = points[i].duplicate();
            r.push(p);
            proof {
                lemma_points_view(before);
                lemma_points_view(r@);
                assert(points_view(r@) =~= points_view(before).push(p@));
            }
        }
        i = i + 1;
    }
    proof {
        lemma_points_view(points@);
        assert(points_view(points@).take(points@.len() as int) =~= points_view(points@));
    }
    r
}

/// Parses the time of day of every point, in order: the first that does not
/// parse gives its error; otherwise the points with their parsed times.
fn parse_points(points: &Vec<SchedulePoint>) -> (r: Result<Vec<TimedPoint>, String>)
    requires
        forall|i: int| 0 <= i < points@.len() ==> #[trigger] transition_in_range(points@[i]@),
    ensures
        match r {
            Ok(t) => first_unparsed(points_view(points@), 0) is None && t@ == timed_points(points_view(points@))
                && timed_points_wf(t@),
            Err(m) => first_unparsed(points_view(points@), 0) matches Some(i)
                && m@ == invalid_time_message(points@[i]@.time_of_day),
        },
{
    let ghost pv = points_view(points@);
    proof {
        lemma_points_view(points@);
    }
    let mut timed: Vec<TimedPoint> = Vec::new();
    let mut i: usize = 0;
    while i < points.len()
        invariant
            pv == points_view(points@),
            pv.len() == points@.len(),
            forall|k: int| 0 <= k < points@.len() ==> #[trigger] pv[k] == points@[k]@,
            forall|k: int| 0 <= k < points@.len() ==> #[trigger] transition_in_range(points@[k]@),
            i <= points@.len(),
            first_unparsed(pv, 0) == first_unparsed(pv, i as int),
            timed@.len() == i,
            forall|k: int| 0 <= k < i ==> #[trigger] timed@[k] == timed_points(pv)[k],
            timed_points_wf(timed@),
        decreases points.len() - i,
    {
        let p = &points[i];
        match parse_time(p.time_of_day.as_str()) {
            Ok(time) => {
                let t = TimedPoint {
                    seconds: time.0,
                    nanos: time.1,
                    transition_minutes: p.transition_minutes,
                    target_dim_percent: clamp_dim_precise(p.target_dim_percent),
                };
                assert(transition_in_range(points@[i as int]@));
                timed.push(t);
                i = i + 1;
            },
            Err(m) => {
                return Err(m);
            },
        }
    }
    assert(timed@ =~= timed_points(pv));
    Ok(timed)
}

/// Checks the enabled points of a schedule, ordered by the text of their time of
/// day: every transition must lie within 0..=1439 minutes, every time of day must
/// parse, and, laid out over two consecutive days, no transition may start before
/// the point ahead of it is reached. Returns the message of the first failure.
pub fn validate_points(points: &[SchedulePoint]) -> (r: Result<(), String>)
    requires
        points@.len() <= MAX_SCHEDULE_POINTS,
    ensures
        match r {
            Ok(()) => spec_validate_points(points_view(points@)) is Ok,
            Err(m) => spec_validate_points(points_view(points@)) == Err::<(), Seq<char>>(m@),
        },
{
    let enabled = enabled_copies(points);
    let sorted = sort_points_by_time_text(enabled);
    let ghost e = points_view(sorted@);
    assert(e == sort_by(enabled_points(points_view(points@)), time_text_le()));
    proof {
        lemma_points_view(sorted@);
        lemma_points_view(points@);
        lemma_enabled_points_len(points_view(points@));
        crate::sorting::lemma_sort_by_len(enabled_points(points_view(points@)), time_text_le());
    }
    if sorted.len() == 0 {
        return Ok(());
    }
    let mut i: usize = 0;
    while i < sorted.len()
        invariant
            e == points_view(sorted@),
            e == sort_by(enabled_points(points_view(points@)), time_text_le()),
            e.len() == sorted@.len(),
            forall|k: int| 0 <= k < sorted@.len() ==> #[trigger] e[k] == sorted@[k]@,
            i <= sorted@.len(),
            forall|k: int| 0 <= k < i ==> #[trigger] transition_in_range(e[k]),
        decreases sorted.len() - i,
    {
        let t = sorted[i].transition_minutes;
        if t < 0 || t > MAX_TRANSITION_MINUTES {
            assert(!transition_in_range(e[i as int]));
            let message = String::from_str("Transition duration must be between 0 and 1439 minutes.");
            assert(message@ == transition_range_message());
            return Err(message);
        }
        i = i + 1;
    }
    assert forall|k: int| 0 <= k < sorted@.len() implies #[trigger] transition_in_range(sorted@[k]@) by {
        assert(e[k] == sorted@[k]@);
        assert(transition_in_range(e[k]));
    }
    assert(!exists|k: int| 0 <= k < e.len() && !transition_in_range(#[trigger] e[k]));
    let timed = match parse_points(&sorted) {
        Ok(t) => t,
        Err(m) => {
            proof {
                lemma_points_view(sorted@);
                let i = first_unparsed(e, 0)->0;
                lemma_first_unparsed_range(e, 0);
                assert(e[i] == sorted@[i]@);
            }
            return Err(m);
        },
    };
    match find_overlap(&timed) {
        Some((start, point)) => {
            proof {
                lemma_overlap_bounds(timed@);
            }
            Err(overlap_message_text(start, point))
        },
        None => Ok(()),
    }
}

pub proof fn lemma_first_unparsed_range(s: Seq<SchedulePointView>, from: int)
    ensures
        first_unparsed(s, from) matches Some(k) ==> from <= k < s.len(),
    decreases s.len() - from,
{
    if from >= 0 && from < s.len() && parsed_time(s[from].time_of_day) is Some {
        lemma_first_unparsed_range(s, from + 1);
    }
}

pub proof fn lemma_enabled_points_len(s: Seq<SchedulePointView>)
    ensures
        enabled_points(s).len() <= s.len(),
    decreases s.len(),
{
    if s.len() > 0 {
        lemma_enabled_points_len(s.drop_last());
    }
}

/// What `get_effective_dim` yields: with the schedule off, or no enabled point, a
/// level of 0 and no next transition; otherwise the enabled points, normalized and
/// ordered by the text of their time, are validated and then evaluated at `now`.
pub open spec fn spec_effective_dim(s: AppSettingsView, now: ZonedTime) -> Result<(int, Option<ZonedTime>), Seq<char>> {
    if !s.schedule_enabled {
        Ok((0, None))
    } else {
        let e = enabled_points(normalized_points(s.schedule_points));
        if e.len() == 0 {
            Ok((0, None))
        } else {
            match spec_validate_points(e) {
                Err(m) => Err(m),
                Ok(_) => {
                    let ev = spec_evaluate(timed_points(e), now);
                    Ok((ev.0, next_start_in_offset(ev.1, now)))
                },
            }
        }
    }
}

/// The scheduled dim level at `now` and the start of the next transition, or the
/// message of the first problem that validation finds in the enabled points.
pub fn get_effective_dim(settings: &AppSettings, now: ZonedTime) -> (r: Result<ScheduleEvaluation, String>)
    requires
        settings.schedule_points@.len() <= MAX_SCHEDULE_POINTS,
        zoned_time_wf(now),
    ensures
        match r {
            Ok(ev) => spec_effective_dim(settings@, now) == Ok::<(int, Option<ZonedTime>), Seq<char>>(
                (ev.current_dim_percent as int, ev.next_transition_start),
            ),
            Err(m) => spec_effective_dim(settings@, now) == Err::<(int, Option<ZonedTime>), Seq<char>>(m@),
        },
{
    if !settings.schedule_enabled {
        return Ok(ScheduleEvaluation { current_dim_percent: 0, next_transition_start: None });
    }
    let normalized = normalize_points(duplicate_points(&settings.schedule_points));
    let enabled = enabled_copies(normalized.as_slice());
    let ghost e = points_view(enabled@);
    assert(e == enabled_points(normalized_points(settings@.schedule_points)));
    proof {
        lemma_points_view(normalized@);
        lemma_points_view(settings.schedule_points@);
        crate::sorting::lemma_sort_by_len(
            settings@.schedule_points.map_values(|p: SchedulePointView| normalize_point(p)),
            time_text_le(),
        );
        lemma_enabled_points_len(points_view(normalized@));
        lemma_points_view(enabled@);
    }
    if enabled.len() == 0 {
        return Ok(ScheduleEvaluation { current_dim_percent: 0, next_transition_start: None });
    }
    match validate_points(enabled.as_slice()) {
        Err(m) => {
            return Err(m);
        },
        Ok(()) => {},
    }
    proof {
        lemma_validation_keeps_enabled_normalized(settings@.schedule_points);
        assert(sort_by(enabled_points(e), time_text_le()) == e);
        assert forall|i: int| 0 <= i < enabled@.len() implies #[trigger] transition_in_range(enabled@[i]@) by {
            assert(e[i] == enabled@[i]@);
            if !transition_in_range(e[i]) {
                assert(spec_validate_points(e) == Err::<(), Seq<char>>(transition_range_message()));
            }
        }
    }
    let timed = match parse_points(&enabled) {
        Ok(t) => t,
        Err(m) => {
            return Err(m);
        },
    };
    let ev = evaluate_timed_points(&timed, now);
    Ok(ev)
}

/// Every point kept by `enabled_points` is enabled and comes from the input.
pub proof fn lemma_enabled_points_members(s: Seq<SchedulePointView>)
    ensures
        forall|i: int| 0 <= i < enabled_points(s).len() ==> (#[trigger] enabled_points(s)[i]).enabled
            && s.contains(enabled_points(s)[i]),
        enabled_points(s).len() <= s.len(),
    decreases s.len(),
{
    if s.len() > 0 {
        let t = s.drop_last();
        lemma_enabled_points_members(t);
        let r = enabled_points(s);
        assert forall|i: int| 0 <= i < r.len() implies (#[trigger] r[i]).enabled && s.contains(r[i]) by {
            if i < enabled_points(t).len() {
                assert(r[i] == enabled_points(t)[i]);
                let j = choose|j: int| 0 <= j < t.len() && t[j] == r[i];
                assert(s[j] == t[j]);
            } else {
                assert(r[i] == s.last());
                assert(s[s.len() - 1] == s.last());
            }
        }
    }
}

/// Keeping the enabled points of a list whose points are all enabled keeps it whole.
pub proof fn lemma_enabled_points_all(s: Seq<SchedulePointView>)
    requires
        forall|i: int| 0 <= i < s.len() ==> (#[trigger] s[i]).enabled,
    ensures
        enabled_points(s) == s,
    decreases s.len(),
{
    if s.len() > 0 {
        lemma_enabled_points_all(s.drop_last());
        assert(s.drop_last().push(s.last()) =~= s);
    }
}

/// Keeping the enabled points of an ordered list leaves it ordered.
pub proof fn lemma_enabled_points_sorted(s: Seq<SchedulePointView>, le: spec_fn(SchedulePointView, SchedulePointView) -> bool)
    requires
        is_sorted_by(s, le),
    ensures
        is_sorted_by(enabled_points(s), le),
    decreases s.len(),
{
    if s.len() > 0 {
        let t = s.drop_last();
        assert(is_sorted_by(t, le)) by {
            assert forall|i: int, j: int| 0 <= i < j < t.len() implies le(#[trigger] t[i], #[trigger] t[j]) by {
                assert(t[i] == s[i] && t[j] == s[j]);
            }
        }
        lemma_enabled_points_sorted(t, le);
        lemma_enabled_points_members(t);
        let r = enabled_points(s);
        let q = enabled_points(t);
        if s.last().enabled {
            assert forall|i: int, j: int| 0 <= i < j < r.len() implies le(#[trigger] r[i], #[trigger] r[j]) by {
                if j == q.len() {
                    assert(r[i] == q[i]);
                    let k = choose|k: int| 0 <= k < t.len() && t[k] == q[i];
                    assert(le(s[k], s[s.len() - 1]));
                } else {
                    assert(r[i] == q[i] && r[j] == q[j]);
                }
            }
        }
    }
}

/// A list that is already ordered is left as it is by the stable sort.
pub proof fn lemma_sort_by_sorted_identity<T>(s: Seq<T>, le: spec_fn(T, T) -> bool)
    requires
        is_sorted_by(s, le),
    ensures
        sort_by(s, le) == s,
    decreases s.len(),
{
    if s.len() > 0 {
        let t = s.drop_last();
        assert(is_sorted_by(t, le)) by {
            assert forall|i: int, j: int| 0 <= i < j < t.len() implies le(#[trigger] t[i], #[trigger] t[j]) by {
                assert(t[i] == s[i] && t[j] == s[j]);
            }
        }
        lemma_sort_by_sorted_identity(t, le);
        if t.len() > 0 {
            assert(le(s[s.len() - 2], s[s.len() - 1]));
            assert(t.last() == s[s.len() - 2]);
        }
        assert(t.push(s.last()) =~= s);
    }
}

/// The enabled points of a normalized list pass through validation unchanged:
/// they are all enabled and already ordered by the text of their time.
pub proof fn lemma_validation_keeps_enabled_normalized(points: Seq<SchedulePointView>)
    ensures
        sort_by(enabled_points(enabled_points(normalized_points(points))), time_text_le())
            == enabled_points(normalized_points(points)),
{
    let n = normalized_points(points);
    lemma_time_text_le_total_preorder();
    crate::sorting::lemma_sort_by_sorted(points.map_values(|p: SchedulePointView| normalize_point(p)), time_text_le());
    lemma_enabled_points_sorted(n, time_text_le());
    lemma_enabled_points_members(n);
    lemma_enabled_points_all(enabled_points(n));
    lemma_sort_by_sorted_identity(enabled_points(n), time_text_le());
}


/// Whether instant `a` comes before instant `b` (offsets play no part).
pub open spec fn instant_before(a: ZonedTime, b: ZonedTime) -> bool {
    a.seconds < b.seconds || (a.seconds == b.seconds && a.nanos < b.nanos)
}

pub fn is_before(a: &ZonedTime, b: &ZonedTime) -> (r: bool)
    ensures
        r == instant_before(*a, *b),
{
    a.seconds < b.seconds || (a.seconds == b.seconds && a.nanos < b.nanos)
}

/// The scheduled level at `now`, 0 where the schedule does not validate.
pub open spec fn scheduled_level(s: AppSettingsView, now: ZonedTime) -> int {
    match spec_effective_dim(s, now) {
        Ok((d, _)) => d,
        Err(_) => 0,
    }
}

/// Whether a manual level of the session is in force at `now`.
pub open spec fn manual_in_force(session: ManualOverrideSession, now: ZonedTime) -> bool {
    &&& session.manual_dim_percent is Some
    &&& match session.manual_override_until {
        Some(until) => instant_before(now, until),
        None => true,
    }
}

/// What `resolve_state` decides: a pause holds its level; else a manual level in
/// force holds, until its expiry; else the schedule decides.
pub open spec fn spec_resolve(s: AppSettingsView, session: ManualOverrideSession, now: ZonedTime) -> (EffectiveDimMode, int, Option<ZonedTime>) {
    if session.is_paused {
        (EffectiveDimMode::Paused, clamp_dim(session.paused_dim_percent as int), None)
    } else if manual_in_force(session, now) {
        (EffectiveDimMode::Manual, clamp_dim(session.manual_dim_percent->0 as int), session.manual_override_until)
    } else {
        (EffectiveDimMode::Auto, scheduled_level(s, now), None)
    }
}

/// The dimming in force at `now`: paused at the paused level; else a manual level
/// that has not expired; else the schedule's level (0 where it does not validate).
pub fn resolve_state(settings: &AppSettings, session: &ManualOverrideSession, now: ZonedTime) -> (r: EffectiveDimState)
    requires
        settings.schedule_points@.len() <= MAX_SCHEDULE_POINTS,
        zoned_time_wf(now),
    ensures
        (r.mode, r.current_dim_percent as int, r.manual_override_until) == spec_resolve(settings@, *session, now),
{
    if session.is_paused {
        return EffectiveDimState {
            mode: EffectiveDimMode::Paused,
            current_dim_percent: clamp_dim_precise(session.paused_dim_percent),
            manual_override_until: None,
        };
    }
    if let Some(manual) = session.manual_dim_percent {
        let in_force = match session.manual_override_until {
            Some(until) => is_before(&now, &until),
            None => true,
        };
        if in_force {
            return EffectiveDimState {
                mode: EffectiveDimMode::Manual,
                current_dim_percent: clamp_dim_precise(manual),
                manual_override_until: session.manual_override_until,
            };
        }
    }
    let level = match get_effective_dim(settings, now) {
        Ok(ev) => ev.current_dim_percent,
        Err(_) => 0,
    };
    EffectiveDimState { mode: EffectiveDimMode::Auto, current_dim_percent: level, manual_override_until: None }
}


pub proof fn lemma_normalized_points_len(points: Seq<SchedulePointView>)
    ensures
        normalized_points(points).len() == points.len(),
{
    crate::sorting::lemma_sort_by_len(points.map_values(|p: SchedulePointView| normalize_point(p)), time_text_le());
}


/// Limiting a dim level twice is limiting it once, and the result lies in 0%..=99%.
pub proof fn law_clamp_dim_idempotent(v: int)
    ensures
        clamp_dim(clamp_dim(v)) == clamp_dim(v),
        0 <= clamp_dim(v) <= MAX_DIM,
{
}

pub proof fn lemma_normalize_point_idempotent(p: SchedulePointView)
    ensures
        normalize_point(normalize_point(p)) == normalize_point(p),
{
}

/// Normalizing points keeps every point (each brought into range) and orders
/// them by the text of their time of day.
pub proof fn law_normalized_points_order_and_content(points: Seq<SchedulePointView>)
    ensures
        normalized_points(points).to_multiset() =~= points.map_values(|p: SchedulePointView| normalize_point(p)).to_multiset(),
        is_sorted_by(normalized_points(points), time_text_le()),
        normalized_points(points).len() == points.len(),
{
    let mapped = points.map_values(|p: SchedulePointView| normalize_point(p));
    crate::sorting::lemma_sort_by_multiset(mapped, time_text_le());
    lemma_time_text_le_total_preorder();
    crate::sorting::lemma_sort_by_sorted(mapped, time_text_le());
    lemma_normalized_points_len(points);
}

/// Every normalized point is in range.
pub proof fn lemma_normalized_points_normal(points: Seq<SchedulePointView>, i: int)
    requires
        0 <= i < normalized_points(points).len(),
    ensures
        normalize_point(normalized_points(points)[i]) == normalized_points(points)[i],
{
    broadcast use vstd::seq_lib::group_to_multiset_ensures;

    let mapped = points.map_values(|p: SchedulePointView| normalize_point(p));
    let n = normalized_points(points);
    crate::sorting::lemma_sort_by_multiset(mapped, time_text_le());
    assert(n.contains(n[i]));
    assert(n.to_multiset().count(n[i]) > 0);
    assert(mapped.contains(n[i]));
    let k = choose|k: int| 0 <= k < mapped.len() && mapped[k] == n[i];
    lemma_normalize_point_idempotent(points[k]);
}

/// Normalizing normalized points changes nothing.
pub proof fn law_normalize_points_idempotent(points: Seq<SchedulePointView>)
    ensures
        normalized_points(normalized_points(points)) == normalized_points(points),
{
    let n = normalized_points(points);
    law_normalized_points_order_and_content(points);
    let mapped = n.map_values(|p: SchedulePointView| normalize_point(p));
    assert forall|i: int| 0 <= i < n.len() implies #[trigger] mapped[i] == n[i] by {
        lemma_normalized_points_normal(points, i);
    }
    assert(mapped =~= n);
    lemma_sort_by_sorted_identity(n, time_text_le());
}

/// Normalizing settings twice is normalizing them once, so saved settings read
/// back unchanged.
pub proof fn law_normalize_settings_idempotent(s: AppSettingsView)
    ensures
        normalized_settings(normalized_settings(s)) == normalized_settings(s),
{
    law_normalize_points_idempotent(s.schedule_points);
}

/// Disabled points play no part in validation.
pub proof fn law_validation_ignores_disabled_points(points: Seq<SchedulePointView>)
    ensures
        spec_validate_points(enabled_points(points)) == spec_validate_points(points),
{
    lemma_enabled_points_members(points);
    lemma_enabled_points_all(enabled_points(points));
}

/// With the schedule switched off, nothing is dimmed and no transition is ahead.
pub proof fn law_schedule_off_is_undimmed(s: AppSettingsView, now: ZonedTime)
    requires
        !s.schedule_enabled,
    ensures
        spec_effective_dim(s, now) == Ok::<(int, Option<ZonedTime>), Seq<char>>((0, None)),
{
}

/// Keeping the enabled points keeps each enabled point as often as the list holds
/// it, and no disabled one.
pub proof fn lemma_enabled_points_count(s: Seq<SchedulePointView>, x: SchedulePointView)
    ensures
        enabled_points(s).to_multiset().count(x) == if x.enabled { s.to_multiset().count(x) } else { 0 },
    decreases s.len(),
{
    broadcast use vstd::seq_lib::group_to_multiset_ensures;
    broadcast use vstd::multiset::group_multiset_axioms;

    if s.len() == 0 {
        assert(s.to_multiset() =~= vstd::multiset::Multiset::empty());
    } else {
        lemma_enabled_points_count(s.drop_last(), x);
        assert(s.drop_last().push(s.last()) =~= s);
    }
}

/// Normalizing points and keeping the enabled ones may be done in either order.
pub proof fn lemma_enabled_points_normalized(s: Seq<SchedulePointView>)
    ensures
        enabled_points(s.map_values(|p: SchedulePointView| normalize_point(p)))
            == enabled_points(s).map_values(|p: SchedulePointView| normalize_point(p)),
    decreases s.len(),
{
    let m = s.map_values(|p: SchedulePointView| normalize_point(p));
    if s.len() == 0 {
        assert(enabled_points(s).map_values(|p: SchedulePointView| normalize_point(p)) =~= m);
    } else {
        lemma_enabled_points_normalized(s.drop_last());
        assert(m.drop_last() =~= s.drop_last().map_values(|p: SchedulePointView| normalize_point(p)));
        assert(m.last() == normalize_point(s.last()));
        let r = enabled_points(s.drop_last());
        assert(r.push(s.last()).map_values(|p: SchedulePointView| normalize_point(p))
            =~= r.map_values(|p: SchedulePointView| normalize_point(p)).push(normalize_point(s.last())));
    }
}

/// Normalized points, stably ordered by time text, from which the enabled ones are kept.
pub open spec fn schedule_of(points: Seq<SchedulePointView>) -> Seq<SchedulePointView> {
    enabled_points(normalized_points(points))
}

/// The enabled normalized points of two lists are the same sequence when their
/// enabled points are the same points in another order and no two enabled points
/// of the first share a time of day text.
pub proof fn lemma_schedule_of_rearranged(p1: Seq<SchedulePointView>, p2: Seq<SchedulePointView>)
    requires
        enabled_points(p2).to_multiset() == enabled_points(p1).to_multiset(),
        forall|i: int, j: int| 0 <= i < j < p1.len() && (#[trigger] p1[i]).enabled && (#[trigger] p1[j]).enabled
            ==> p1[i].time_of_day != p1[j].time_of_day,
    ensures
        schedule_of(p1) == schedule_of(p2),
{
    broadcast use vstd::seq_lib::group_to_multiset_ensures;

    let le = time_text_le();
    let m1 = p1.map_values(|p: SchedulePointView| normalize_point(p));
    let m2 = p2.map_values(|p: SchedulePointView| normalize_point(p));
    let e1 = schedule_of(p1);
    let e2 = schedule_of(p2);
    lemma_time_text_le_total_preorder();
    crate::sorting::lemma_sort_by_sorted(m1, le);
    crate::sorting::lemma_sort_by_sorted(m2, le);
    lemma_enabled_points_sorted(sort_by(m1, le), le);
    lemma_enabled_points_sorted(sort_by(m2, le), le);
    crate::sorting::lemma_sort_by_multiset(m1, le);
    crate::sorting::lemma_sort_by_multiset(m2, le);
    lemma_enabled_points_normalized(p1);
    lemma_enabled_points_normalized(p2);
    let a1 = enabled_points(p1);
    let a2 = enabled_points(p2);
    crate::sorting::lemma_map_values_multiset(a2, a1, |p: SchedulePointView| normalize_point(p));
    let n1 = a1.map_values(|p: SchedulePointView| normalize_point(p));
    assert forall|x: SchedulePointView| #[trigger] e1.to_multiset().count(x) == n1.to_multiset().count(x)
        && e2.to_multiset().count(x) == n1.to_multiset().count(x) by {
        lemma_enabled_points_count(sort_by(m1, le), x);
        lemma_enabled_points_count(sort_by(m2, le), x);
        lemma_enabled_points_count(m1, x);
        lemma_enabled_points_count(m2, x);
    }
    assert(e1.to_multiset() =~= e2.to_multiset());
    lemma_enabled_points_members(p1);
    assert forall|x: SchedulePointView, y: SchedulePointView| #[trigger] e1.to_multiset().count(x) > 0
        && #[trigger] e1.to_multiset().count(y) > 0 && le(x, y) && le(y, x) implies x == y by {
        crate::text::lemma_seq_le_antisymmetric(x.time_of_day, y.time_of_day);
        assert(n1.contains(x));
        assert(n1.contains(y));
        let kx = choose|k: int| 0 <= k < n1.len() && n1[k] == x;
        let ky = choose|k: int| 0 <= k < n1.len() && n1[k] == y;
        assert(p1.contains(a1[kx]));
        assert(p1.contains(a1[ky]));
        let ix = choose|i: int| 0 <= i < p1.len() && p1[i] == a1[kx];
        let iy = choose|i: int| 0 <= i < p1.len() && p1[i] == a1[ky];
        assert(a1[kx].enabled && a1[ky].enabled);
        if ix < iy {
            assert(p1[ix].time_of_day != p1[iy].time_of_day);
        } else if iy < ix {
            assert(p1[iy].time_of_day != p1[ix].time_of_day);
        }
    }
    crate::sorting::lemma_sorted_unique(e1, e2, le);
}

/// The schedule depends on the enabled points alone, not on their order: settings
/// that differ only in their points, where the enabled points of the one are
/// those of the other in another order, with any disabled points added or left
/// out, give the same result at every instant, as long as no two enabled points
/// share a time of day.
pub proof fn law_effective_dim_ignores_order_and_disabled_points(s1: AppSettingsView, s2: AppSettingsView, now: ZonedTime)
    requires
        s2 == (AppSettingsView { schedule_points: s2.schedule_points, ..s1 }),
        enabled_points(s2.schedule_points).to_multiset() == enabled_points(s1.schedule_points).to_multiset(),
        forall|i: int, j: int| 0 <= i < j < s1.schedule_points.len() && (#[trigger] s1.schedule_points[i]).enabled
            && (#[trigger] s1.schedule_points[j]).enabled
            ==> s1.schedule_points[i].time_of_day != s1.schedule_points[j].time_of_day,
    ensures
        spec_effective_dim(s2, now) == spec_effective_dim(s1, now),
{
    lemma_schedule_of_rearranged(s1.schedule_points, s2.schedule_points);
}

/// The schedule repeats from day to day: one day later the level is the same and
/// the next transition start, if any, is one day later; a schedule refused is
/// refused with the same message.
pub proof fn law_effective_dim_repeats_daily(s: AppSettingsView, now: ZonedTime)
    requires
        zoned_time_wf(now),
        zoned_time_wf(one_day_later(now)),
    ensures
        spec_effective_dim(s, one_day_later(now)) == (match spec_effective_dim(s, now) {
            Ok((d, next)) => Ok((d, match next {
                Some(t) => Some(one_day_later(t)),
                None => None,
            })),
            Err(m) => Err(m),
        }),
{
    if s.schedule_enabled {
        let e = enabled_points(normalized_points(s.schedule_points));
        if e.len() > 0 && spec_validate_points(e) is Ok {
            lemma_evaluate_one_day_later(timed_points(e), now);
        }
    }
}

} // verus!

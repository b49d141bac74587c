use chrono::{DateTime, Duration, FixedOffset, NaiveDate, NaiveTime, TimeZone};
use dimsome::models::{AppSettings, EffectiveDimMode, ManualOverrideSession, SchedulePoint, ZonedTime};
use dimsome::schedule::{
    clamp_dim_precise, get_effective_dim, normalize_points, normalize_settings, parse_time,
    resolve_state, validate_points,
};
use dimsome::timeline::{evaluate_timed_points, find_overlap, TimedPoint};

fn pct(value: f64) -> i64 {
    (value * 100.0).round() as i64
}

fn point(time: &str, target: f64, transition: i32) -> SchedulePoint {
    SchedulePoint {
        id: uuid::Uuid::new_v4().as_u128(),
        time_of_day: time.to_string(),
        target_dim_percent: pct(target),
        transition_minutes: transition,
        enabled: true,
    }
}

fn zoned(value: DateTime<FixedOffset>) -> ZonedTime {
    ZonedTime {
        seconds: value.timestamp(),
        nanos: value.timestamp_subsec_nanos(),
        offset_seconds: value.offset().local_minus_utc(),
    }
}

fn at(text: &str) -> ZonedTime {
    let offset = FixedOffset::east_opt(3600).unwrap();
    zoned(DateTime::parse_from_rfc3339(text).unwrap().with_timezone(&offset))
}

fn settings_with(points: Vec<SchedulePoint>) -> AppSettings {
    let mut settings = AppSettings::default();
    settings.schedule_points = points;
    settings
}

#[test]
fn clamp_dim_precise_rounds_to_hundredths_and_caps_at_ninety_nine() {
    assert_eq!(clamp_dim_precise(pct(-1.0)), pct(0.0));
    assert_eq!(clamp_dim_precise(pct(99.999)), pct(99.0));
    assert_eq!(clamp_dim_precise(pct(12.3456)), pct(12.35));
}

#[test]
fn interpolates_within_transition_window() {
    let settings = settings_with(vec![point("07:00:00", 0.0, 30), point("23:00:00", 50.0, 60)]);
    let now = at("2026-03-12T22:30:00+01:00");
    let result = get_effective_dim(&settings, now).unwrap();
    assert!((result.current_dim_percent as f64 / 100.0 - 25.0).abs() < 0.01);
}

#[test]
fn rejects_overlapping_transitions() {
    let points = vec![point("22:00:00", 20.0, 120), point("23:00:00", 50.0, 90)];
    assert!(validate_points(&points).is_err());
}

#[test]
fn manual_override_expires_at_next_transition_start() {
    let settings = settings_with(vec![point("07:00:00", 0.0, 30), point("23:00:00", 50.0, 60)]);
    let schedule = get_effective_dim(&settings, at("2026-03-12T21:30:00+01:00")).unwrap();
    let session = ManualOverrideSession {
        is_paused: false,
        manual_dim_percent: Some(pct(10.0)),
        manual_override_until: schedule.next_transition_start,
        paused_dim_percent: pct(0.0),
    };
    let before = resolve_state(&settings, &session, at("2026-03-12T21:45:00+01:00"));
    let at_start = resolve_state(&settings, &session, at("2026-03-12T22:00:00+01:00"));
    assert_eq!(before.mode, EffectiveDimMode::Manual);
    assert_eq!(at_start.mode, EffectiveDimMode::Auto);
}

#[test]
fn next_transition_start_is_in_the_offset_of_now() {
    let settings = settings_with(vec![point("07:00:00", 0.0, 30), point("23:00:00", 50.0, 60)]);
    let now = at("2026-03-12T21:30:00+01:00");
    let schedule = get_effective_dim(&settings, now).unwrap();
    assert_eq!(schedule.next_transition_start, Some(at("2026-03-12T22:00:00+01:00")));
    assert_eq!(schedule.current_dim_percent, pct(0.0));
}

#[test]
fn holds_the_last_reached_target_between_transitions() {
    let settings = settings_with(vec![point("07:00:00", 0.0, 30), point("23:00:00", 50.0, 60)]);
    let night = get_effective_dim(&settings, at("2026-03-13T02:00:00+01:00")).unwrap();
    assert_eq!(night.current_dim_percent, pct(50.0));
    assert_eq!(night.next_transition_start, Some(at("2026-03-13T06:30:00+01:00")));
    let morning = get_effective_dim(&settings, at("2026-03-13T06:45:00+01:00")).unwrap();
    assert_eq!(morning.current_dim_percent, pct(25.0));
}

#[test]
fn transition_ends_exactly_at_its_target() {
    let settings = settings_with(vec![point("07:00:00", 0.0, 30), point("23:00:00", 50.0, 60)]);
    let at_target = get_effective_dim(&settings, at("2026-03-12T23:00:00+01:00")).unwrap();
    assert_eq!(at_target.current_dim_percent, pct(50.0));
    let at_start = get_effective_dim(&settings, at("2026-03-12T22:00:00+01:00")).unwrap();
    assert_eq!(at_start.current_dim_percent, pct(0.0));
}

#[test]
fn schedule_off_or_empty_is_undimmed() {
    let mut settings = settings_with(vec![point("07:00:00", 0.0, 30), point("23:00:00", 50.0, 60)]);
    settings.schedule_enabled = false;
    let off = get_effective_dim(&settings, at("2026-03-12T23:30:00+01:00")).unwrap();
    assert_eq!(off.current_dim_percent, 0);
    assert_eq!(off.next_transition_start, None);
    let mut disabled = point("23:00:00", 50.0, 60);
    disabled.enabled = false;
    let empty = get_effective_dim(&settings_with(vec![disabled]), at("2026-03-12T23:30:00+01:00")).unwrap();
    assert_eq!(empty.current_dim_percent, 0);
    assert_eq!(empty.next_transition_start, None);
}

#[test]
fn invalid_schedules_report_their_first_problem() {
    let settings = settings_with(vec![point("7 o'clock", 10.0, 30)]);
    assert_eq!(
        get_effective_dim(&settings, at("2026-03-12T23:30:00+01:00")).unwrap_err(),
        "Invalid time value '7 o'clock'."
    );
    let overlapping = vec![point("22:00:00", 20.0, 120), point("23:00:00", 50.0, 90)];
    assert_eq!(
        validate_points(&overlapping).unwrap_err(),
        "The transition starting at 21:30 overlaps the point at 22:00."
    );
    assert_eq!(
        validate_points(&[point("08:00", 20.0, 2000)]).unwrap_err(),
        "Transition duration must be between 0 and 1439 minutes."
    );
    assert_eq!(validate_points(&[point("08:00", 20.0, -1)]).unwrap_err(), "Transition duration must be between 0 and 1439 minutes.");
}

#[test]
fn validation_ignores_disabled_points_and_wraps_midnight() {
    let mut off = point("22:30", 20.0, 600);
    off.enabled = false;
    assert!(validate_points(&[point("22:00", 20.0, 60), off]).is_ok());
    assert!(validate_points(&[]).is_ok());
    assert_eq!(
        validate_points(&[point("23:00", 50.0, 60), point("00:30", 0.0, 120)]).unwrap_err(),
        "The transition starting at 22:30 overlaps the point at 23:00."
    );
}

#[test]
fn parses_times_with_and_without_seconds() {
    assert_eq!(parse_time("07:30"), Ok((27000, 0)));
    assert_eq!(parse_time("23:59:59"), Ok((86399, 0)));
    assert_eq!(parse_time("12:30:60"), Ok((45059, 1_000_000_000)));
    assert_eq!(parse_time("24:00:00"), Err("Invalid time value '24:00:00'.".to_string()));
    assert!(parse_time("noon").is_err());
}

#[test]
fn normalizes_points_by_range_and_time_text() {
    let points = vec![point("23:00", 120.0, 3000), point("07:00", -5.0, -10), point("07:00", 12.5, 15)];
    let normalized = normalize_points(points);
    let times: Vec<&str> = normalized.iter().map(|p| p.time_of_day.as_str()).collect();
    assert_eq!(times, vec!["07:00", "07:00", "23:00"]);
    assert_eq!(normalized[0].target_dim_percent, 0);
    assert_eq!(normalized[0].transition_minutes, 0);
    assert_eq!(normalized[1].target_dim_percent, pct(12.5));
    assert_eq!(normalized[2].target_dim_percent, pct(99.0));
    assert_eq!(normalized[2].transition_minutes, 1439);
}

#[test]
fn normalizing_settings_twice_changes_nothing_more() {
    let mut settings = settings_with(vec![point("9:00", 30.0, 20), point("08:00", 10.0, 2000)]);
    settings.dim_step_percent = pct(40.0);
    settings.version = 1;
    let once = normalize_settings(settings);
    assert_eq!(once.version, 3);
    assert_eq!(once.dim_step_percent, pct(25.0));
    let once_times: Vec<String> = once.schedule_points.iter().map(|p| p.time_of_day.clone()).collect();
    assert_eq!(once_times, vec!["08:00".to_string(), "9:00".to_string()]);
    let twice = normalize_settings(normalize_settings(settings_with(vec![point("9:00", 30.0, 20), point("08:00", 10.0, 2000)])));
    let twice_times: Vec<String> = twice.schedule_points.iter().map(|p| p.time_of_day.clone()).collect();
    assert_eq!(twice_times, once_times);
    assert_eq!(twice.schedule_points[0].transition_minutes, once.schedule_points[0].transition_minutes);
}

#[test]
fn finds_overlaps_among_timed_points() {
    let points = vec![
        TimedPoint { nanos: 0, seconds: 22 * 3600, transition_minutes: 120, target_dim_percent: 2000 },
        TimedPoint { nanos: 0, seconds: 23 * 3600, transition_minutes: 90, target_dim_percent: 5000 },
    ];
    assert_eq!(find_overlap(&points), Some((23 * 3600 - 90 * 60, 22 * 3600)));
    let fine = vec![TimedPoint { nanos: 0, seconds: 7 * 3600, transition_minutes: 30, target_dim_percent: 0 }];
    assert_eq!(find_overlap(&fine), None);
}

#[test]
fn evaluates_timed_points_directly() {
    let points = vec![
        TimedPoint { nanos: 0, seconds: 23 * 3600, transition_minutes: 60, target_dim_percent: 5000 },
        TimedPoint { nanos: 0, seconds: 7 * 3600, transition_minutes: 30, target_dim_percent: 0 },
    ];
    let now = at("2026-03-12T22:15:00+01:00");
    let evaluation = evaluate_timed_points(&points, now);
    assert_eq!(evaluation.current_dim_percent, 1250);
    assert_eq!(evaluation.next_transition_start, Some(at("2026-03-13T06:30:00+01:00")));
}

#[test]
fn resolves_paused_and_manual_sessions() {
    let settings = AppSettings::default();
    let now = at("2026-03-12T12:00:00+01:00");
    let paused = ManualOverrideSession {
        is_paused: true,
        manual_dim_percent: Some(pct(70.0)),
        manual_override_until: None,
        paused_dim_percent: pct(120.0),
    };
    let state = resolve_state(&settings, &paused, now);
    assert_eq!(state.mode, EffectiveDimMode::Paused);
    assert_eq!(state.current_dim_percent, pct(99.0));
    let manual = ManualOverrideSession { is_paused: false, ..paused };
    let state = resolve_state(&settings, &manual, now);
    assert_eq!(state.mode, EffectiveDimMode::Manual);
    assert_eq!(state.current_dim_percent, pct(70.0));
    assert_eq!(state.manual_override_until, None);
    let auto = ManualOverrideSession { manual_dim_percent: None, ..manual };
    let state = resolve_state(&settings, &auto, now);
    assert_eq!(state.mode, EffectiveDimMode::Auto);
    assert_eq!(state.current_dim_percent, 0);
}

#[test]
fn leap_second_point_fades_from_the_next_whole_second() {
    let settings = settings_with(vec![point("13:00:60", 50.0, 1), point("00:00", 0.0, 0)]);
    let evaluation = get_effective_dim(&settings, at("2026-03-12T13:00:30+01:00")).unwrap();
    assert_eq!(evaluation.current_dim_percent, 2500);
    assert_eq!(evaluation.next_transition_start, Some(at("2026-03-13T00:00:00+01:00")));
}

#[test]
fn leap_second_point_without_transition_starts_within_its_leap_second() {
    let settings = settings_with(vec![point("13:00:60", 40.0, 0), point("00:00", 0.0, 0)]);
    let evaluation = get_effective_dim(&settings, at("2026-03-12T13:00:30+01:00")).unwrap();
    assert_eq!(evaluation.current_dim_percent, 0);
    let leap = ZonedTime { nanos: 1_000_000_000, ..at("2026-03-12T13:00:59+01:00") };
    assert_eq!(evaluation.next_transition_start, Some(leap));
    let at_leap = get_effective_dim(&settings, leap).unwrap();
    assert_eq!(at_leap.current_dim_percent, 4000);
}

#[test]
fn leap_second_point_across_utc_midnight_lasts_a_second_less() {
    let settings = settings_with(vec![point("01:00:60", 50.0, 2), point("12:00", 0.0, 0)]);
    let evaluation = get_effective_dim(&settings, at("2026-03-12T01:00:00+01:00")).unwrap();
    assert_eq!(evaluation.current_dim_percent, 2521);
}

#[test]
fn effective_dim_ignores_point_order_and_disabled_points() {
    let first = settings_with(vec![point("07:00", 0.0, 30), point("23:00", 50.0, 60)]);
    let mut off = point("12:00", 80.0, 10);
    off.enabled = false;
    let second = settings_with(vec![point("23:00", 50.0, 60), off, point("07:00", 0.0, 30)]);
    for text in ["2026-03-12T22:30:00+01:00", "2026-03-12T12:05:00+01:00", "2026-03-13T06:45:00+01:00"] {
        assert_eq!(get_effective_dim(&first, at(text)), get_effective_dim(&second, at(text)));
    }
}

#[test]
fn effective_dim_repeats_one_day_later() {
    let settings = settings_with(vec![point("07:00", 0.0, 30), point("23:00", 50.0, 60)]);
    let today = get_effective_dim(&settings, at("2026-03-12T22:30:00+01:00")).unwrap();
    let tomorrow = get_effective_dim(&settings, at("2026-03-13T22:30:00+01:00")).unwrap();
    assert_eq!(tomorrow.current_dim_percent, today.current_dim_percent);
    let next_today = today.next_transition_start.unwrap();
    let next_tomorrow = tomorrow.next_transition_start.unwrap();
    assert_eq!(next_tomorrow, ZonedTime { seconds: next_today.seconds + 86400, ..next_today });
}

#[test]
fn chrono_counts_leap_second_transitions_as_the_schedule_does() {
    let offset = FixedOffset::east_opt(0).unwrap();
    let leap = NaiveTime::parse_from_str("00:00:60", "%H:%M:%S").unwrap();
    let date = NaiveDate::from_ymd_opt(2026, 3, 12).unwrap();
    let target = offset.from_local_datetime(&date.and_time(leap)).single().unwrap();
    let start = target - Duration::minutes(2);
    assert_eq!(start, DateTime::parse_from_rfc3339("2026-03-11T23:59:00+00:00").unwrap());
    assert_eq!((target - start).num_seconds(), 119);
    let noon_leap = NaiveTime::parse_from_str("12:00:60", "%H:%M:%S").unwrap();
    let target = offset.from_local_datetime(&date.and_time(noon_leap)).single().unwrap();
    assert_eq!((target - (target - Duration::minutes(1))).num_seconds(), 60);
    assert_eq!(target - Duration::minutes(0), target);
}

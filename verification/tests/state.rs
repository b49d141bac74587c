use chrono::{DateTime, FixedOffset};
use dimsome::models::{AppSettings, DimmingCapabilities, DimmingMethod, EffectiveDimMode, SchedulePoint, ZonedTime};
use dimsome::state::{coerce_settings_for_capabilities, nudge_target, RuntimeState, HOTKEY_MAX_DIM};

fn pct(value: f64) -> i64 {
    (value * 100.0).round() as i64
}

fn at(text: &str) -> ZonedTime {
    let offset = FixedOffset::east_opt(3600).unwrap();
    let value = DateTime::parse_from_rfc3339(text).unwrap().with_timezone(&offset);
    ZonedTime {
        seconds: value.timestamp(),
        nanos: value.timestamp_subsec_nanos(),
        offset_seconds: value.offset().local_minus_utc(),
    }
}

fn capabilities(available: bool) -> DimmingCapabilities {
    DimmingCapabilities { magnification_available: available, magnification_status_text: "probe".into() }
}

#[test]
fn hotkey_maximum_stops_dim_more_at_ninety_five_percent() {
    assert_eq!(nudge_target(pct(93.0), pct(5.0), 1, pct(95.0)), pct(95.0));
}

#[test]
fn hotkey_cap_does_not_change_dim_less_nudges() {
    assert_eq!(nudge_target(pct(8.0), pct(5.0), -1, pct(95.0)), pct(3.0));
}

#[test]
fn high_cap_does_not_change_regular_dim_more_steps_below_limit() {
    assert_eq!(nudge_target(pct(40.0), pct(5.0), 1, pct(95.0)), pct(45.0));
}

#[test]
fn unsupported_magnification_defaults_fall_back_to_overlay() {
    let settings = AppSettings::default();
    let capabilities = DimmingCapabilities {
        magnification_available: false,
        magnification_status_text: "Unavailable".into(),
    };

    let coerced = coerce_settings_for_capabilities(settings, &capabilities);

    assert_eq!(coerced.dimming_method, DimmingMethod::Overlay);
}

#[test]
fn magnification_is_kept_only_where_available() {
    let mut settings = AppSettings::default();
    settings.dimming_method = DimmingMethod::Magnification;
    let kept = coerce_settings_for_capabilities(settings, &capabilities(true));
    assert_eq!(kept.dimming_method, DimmingMethod::Magnification);
    let mut settings = AppSettings::default();
    settings.dimming_method = DimmingMethod::Magnification;
    let dropped = coerce_settings_for_capabilities(settings, &capabilities(false));
    assert_eq!(dropped.dimming_method, DimmingMethod::Overlay);
    let mut gamma = AppSettings::default();
    gamma.dimming_method = DimmingMethod::Gamma;
    assert_eq!(coerce_settings_for_capabilities(gamma, &capabilities(false)).dimming_method, DimmingMethod::Gamma);
}

#[test]
fn nudges_stay_within_range() {
    assert_eq!(nudge_target(pct(97.0), pct(5.0), 1, HOTKEY_MAX_DIM), pct(95.0));
    assert_eq!(nudge_target(pct(98.0), pct(5.0), 1, pct(120.0)), pct(99.0));
    assert_eq!(nudge_target(pct(2.0), pct(5.0), -1, HOTKEY_MAX_DIM), 0);
}

fn state_with_default_schedule() -> RuntimeState {
    RuntimeState::new(AppSettings::default(), capabilities(true))
}

#[test]
fn new_state_starts_in_auto_with_normalized_settings() {
    let mut settings = AppSettings::default();
    settings.dim_step_percent = pct(0.5);
    settings.version = 1;
    let state = RuntimeState::new(settings, capabilities(false));
    assert_eq!(state.settings.version, 3);
    assert_eq!(state.settings.dim_step_percent, pct(1.0));
    assert_eq!(state.current_state.mode, EffectiveDimMode::Auto);
    assert!(!state.schedule_paused);
    assert_eq!(state.manual_dim_percent, None);
}

#[test]
fn refresh_follows_the_schedule_and_clears_expired_manual_levels() {
    let mut state = state_with_default_schedule();
    let evening = state.refresh_state(at("2026-03-12T22:30:00+01:00"));
    assert_eq!(evening.mode, EffectiveDimMode::Auto);
    assert_eq!(evening.current_dim_percent, pct(25.0));
    assert_eq!(state.current_state, evening);

    state.apply_manual_dim(pct(10.0), at("2026-03-12T21:30:00+01:00"));
    assert_eq!(state.manual_override_until, Some(at("2026-03-12T22:00:00+01:00")));
    let manual = state.refresh_state(at("2026-03-12T21:45:00+01:00"));
    assert_eq!(manual.mode, EffectiveDimMode::Manual);
    assert_eq!(manual.current_dim_percent, pct(10.0));
    let expired = state.refresh_state(at("2026-03-12T22:00:00+01:00"));
    assert_eq!(expired.mode, EffectiveDimMode::Auto);
    assert_eq!(state.manual_dim_percent, None);
    assert_eq!(state.manual_override_until, None);
}

#[test]
fn pause_freezes_the_current_level_until_resumed() {
    let mut state = state_with_default_schedule();
    state.refresh_state(at("2026-03-12T22:30:00+01:00"));
    state.pause();
    let paused = state.refresh_state(at("2026-03-13T03:00:00+01:00"));
    assert_eq!(paused.mode, EffectiveDimMode::Paused);
    assert_eq!(paused.current_dim_percent, pct(25.0));
    state.resume();
    let resumed = state.refresh_state(at("2026-03-13T03:00:00+01:00"));
    assert_eq!(resumed.mode, EffectiveDimMode::Auto);
    assert_eq!(resumed.current_dim_percent, pct(50.0));
}

#[test]
fn hotkey_nudges_use_the_dim_step_and_cap() {
    let mut state = state_with_default_schedule();
    state.refresh_state(at("2026-03-13T03:00:00+01:00"));
    assert_eq!(state.nudge_hotkey(1), pct(55.0));
    assert_eq!(state.nudge_hotkey(-1), pct(45.0));
    state.apply_manual_dim(pct(93.0), at("2026-03-13T03:00:00+01:00"));
    state.refresh_state(at("2026-03-13T03:00:01+01:00"));
    assert_eq!(state.nudge_hotkey(1), pct(95.0));
}

#[test]
fn saved_settings_move_the_manual_expiry_to_their_next_transition() {
    let mut state = state_with_default_schedule();
    state.apply_manual_dim(pct(30.0), at("2026-03-12T12:00:00+01:00"));
    let mut saved = AppSettings::default();
    saved.schedule_points = vec![SchedulePoint {
        id: 1,
        time_of_day: "20:00".to_string(),
        target_dim_percent: pct(40.0),
        transition_minutes: 10,
        enabled: true,
    }];
    let saved = state.settings_to_save(saved);
    state.install_saved_settings(saved, at("2026-03-12T12:00:00+01:00"));
    assert_eq!(state.manual_override_until, Some(at("2026-03-12T19:50:00+01:00")));
    assert_eq!(state.manual_dim_percent, Some(pct(30.0)));
}

use dimsome::dimming::{
    build_gamma_ramp, build_identity_gamma_ramp, build_identity_magnification_effect,
    build_magnification_effect, capabilities_from_probe, gamma_sync_changed, overlay_alpha, plan_monitor_sync, widestr,
    DimmingThreadState, MagnificationEffect, MonitorInfo, MAGNIFICATION_SCALE,
};
use dimsome::models::DimmingMethod;

fn pct(value: f64) -> i64 {
    (value * 100.0).round() as i64
}

fn entry(effect: &MagnificationEffect, index: usize) -> f32 {
    effect.transform[index] as f32 / MAGNIFICATION_SCALE as f32
}

fn assert_close(left: f32, right: f32) {
    assert!((left - right).abs() < 1e-6, "expected {left} to be close to {right}");
}

#[test]
fn gamma_ramp_is_identity_at_zero_dim() {
    let ramp = build_gamma_ramp(pct(0.0));

    assert_eq!(ramp[0][0], 0);
    assert_eq!(ramp[0][255], u16::MAX);
    assert_eq!(ramp[0], ramp[1]);
    assert_eq!(ramp[1], ramp[2]);
}

#[test]
fn gamma_ramp_darkens_monotonically_as_dim_increases() {
    let lighter_ramp = build_gamma_ramp(pct(25.0));
    let darker_ramp = build_gamma_ramp(pct(75.0));

    assert!(lighter_ramp[0][128] > darker_ramp[0][128]);

    for channel in 0..3 {
        for index in 1..256 {
            assert!(lighter_ramp[channel][index] >= lighter_ramp[channel][index - 1]);
            assert!(darker_ramp[channel][index] >= darker_ramp[channel][index - 1]);
        }
    }
}

#[test]
fn gamma_ramp_stays_within_bounds_for_high_dim_values() {
    let ramp = build_gamma_ramp(pct(99.0));

    for channel in ramp {
        for value in channel {
            assert!(value <= u16::MAX);
        }
    }
}

#[test]
fn magnification_effect_is_identity_at_zero_dim() {
    let effect = build_magnification_effect(pct(0.0));

    assert_close(entry(&effect, 0), 1.0);
    assert_close(entry(&effect, 6), 1.0);
    assert_close(entry(&effect, 12), 1.0);
    assert_close(entry(&effect, 18), 1.0);
    assert_close(entry(&effect, 24), 1.0);
}

#[test]
fn magnification_effect_darkens_monotonically_as_dim_increases() {
    let lighter_effect = build_magnification_effect(pct(25.0));
    let darker_effect = build_magnification_effect(pct(75.0));

    assert!(entry(&lighter_effect, 0) > entry(&darker_effect, 0));
    assert_close(entry(&lighter_effect, 0), entry(&lighter_effect, 6));
    assert_close(entry(&lighter_effect, 6), entry(&lighter_effect, 12));
    assert_close(entry(&darker_effect, 0), entry(&darker_effect, 6));
    assert_close(entry(&darker_effect, 6), entry(&darker_effect, 12));
}

#[test]
fn magnification_effect_preserves_alpha_and_translation_rows() {
    let effect = build_magnification_effect(pct(60.0));

    assert_close(entry(&effect, 15), 0.0);
    assert_close(entry(&effect, 16), 0.0);
    assert_close(entry(&effect, 17), 0.0);
    assert_close(entry(&effect, 18), 1.0);
    assert_close(entry(&effect, 19), 0.0);
    assert_close(entry(&effect, 20), 0.0);
    assert_close(entry(&effect, 21), 0.0);
    assert_close(entry(&effect, 22), 0.0);
    assert_close(entry(&effect, 23), 0.0);
    assert_close(entry(&effect, 24), 1.0);
}

#[test]
fn gamma_values_scale_and_round() {
    let ramp = build_gamma_ramp(pct(50.0));
    assert_eq!(ramp[0][1], 129);
    assert_eq!(ramp[2][255], 32768);
    assert_eq!(build_identity_gamma_ramp()[1][200], 200 * 257);
    assert_eq!(build_gamma_ramp(pct(150.0))[0][255], 655);
}

#[test]
fn magnification_scale_follows_the_level() {
    let effect = build_magnification_effect(pct(40.0));
    assert_eq!(effect.transform[0], 6000);
    assert_eq!(effect.transform[1], 0);
    let identity = build_identity_magnification_effect();
    assert_eq!(identity.transform[0], MAGNIFICATION_SCALE);
    assert_eq!(identity.transform.len(), 25);
}

#[test]
fn overlay_alpha_is_the_level_share_of_255() {
    assert_eq!(overlay_alpha(pct(0.0)), 0);
    assert_eq!(overlay_alpha(pct(50.0)), 128);
    assert_eq!(overlay_alpha(pct(99.0)), 252);
    assert_eq!(overlay_alpha(pct(200.0)), 252);
}

#[test]
fn wide_strings_are_nul_terminated_utf16() {
    assert_eq!(widestr("DISPLAY"), vec![68, 73, 83, 80, 76, 65, 89, 0]);
    assert_eq!(widestr("é𝄞"), vec![0xE9, 0xD834, 0xDD1E, 0]);
    assert_eq!(widestr(""), vec![0]);
}

#[test]
fn capability_probe_needs_a_clean_round_trip() {
    let available = capabilities_from_probe(true, true);
    assert!(available.magnification_available);
    assert!(available.magnification_status_text.starts_with("Magnification uses"));
    assert!(!capabilities_from_probe(true, false).magnification_available);
    let unavailable = capabilities_from_probe(false, true);
    assert!(!unavailable.magnification_available);
    assert_eq!(
        unavailable.magnification_status_text,
        "Magnification is unavailable in this process/runtime and has been disabled."
    );
}

#[test]
fn dimming_thread_applies_only_on_change() {
    let mut state = DimmingThreadState::new();
    assert_eq!(state.begin_sync(DimmingMethod::Overlay), None);
    assert!(state.should_apply(pct(20.0), false));
    state.finish_apply(pct(20.0), false);
    assert_eq!(state.begin_sync(DimmingMethod::Overlay), None);
    assert!(!state.should_apply(pct(20.0), false));
    assert!(state.should_apply(pct(20.0), true));
    state.finish_apply(pct(20.0), true);
    assert!(state.should_apply(pct(20.0), false));
    state.finish_apply(pct(20.0), false);
    assert!(state.should_apply(pct(21.0), false));
    assert_eq!(state.begin_sync(DimmingMethod::Gamma), Some(DimmingMethod::Overlay));
    assert_eq!(state.last_applied_dim_percent, None);
    assert!(state.needs_apply);
}

#[test]
fn dimming_thread_reset_shuts_magnification_down() {
    let mut state = DimmingThreadState::new();
    state.begin_sync(DimmingMethod::Gamma);
    assert_eq!(state.begin_reset(DimmingMethod::Magnification), Some(DimmingMethod::Gamma));
    state.finish_reset(DimmingMethod::Magnification);
    assert_eq!(state.active_method, None);
    assert_eq!(state.last_applied_dim_percent, Some(0));
    assert!(!state.needs_apply);
    assert_eq!(state.begin_reset(DimmingMethod::Overlay), None);
    state.finish_reset(DimmingMethod::Overlay);
    assert_eq!(state.active_method, Some(DimmingMethod::Overlay));
}

fn monitor(name: &str) -> MonitorInfo {
    MonitorInfo { device_name: name.to_string(), left: 0, top: 0, width: 1920, height: 1080 }
}

#[test]
fn monitor_sync_plans_removals_and_additions() {
    let existing = vec!["\\\\.\\DISPLAY1".to_string(), "\\\\.\\DISPLAY2".to_string()];
    let monitors = vec![monitor("\\\\.\\DISPLAY2"), monitor("\\\\.\\DISPLAY3"), monitor("\\\\.\\DISPLAY3")];
    let plan = plan_monitor_sync(&existing, &monitors);
    assert_eq!(plan.removed, vec![0]);
    assert_eq!(plan.missing, vec![1]);
    assert!(plan.changed);
    let same = plan_monitor_sync(&existing, &vec![monitor("\\\\.\\DISPLAY1"), monitor("\\\\.\\DISPLAY2")]);
    assert!(same.removed.is_empty() && same.missing.is_empty());
    assert!(!same.changed);
}

#[test]
fn gamma_sync_changes_when_a_device_goes_or_one_opens() {
    assert!(!gamma_sync_changed(0, &vec![]));
    assert!(!gamma_sync_changed(0, &vec![false, false]));
    assert!(gamma_sync_changed(0, &vec![false, true]));
    assert!(gamma_sync_changed(2, &vec![false]));
}

use dimsome::models::{default_dimming_method, AppSettings, DimmingMethod, ManualHotkeys, CURRENT_VERSION};
use dimsome::settings::settings_from_stored;
use dimsome::startup::{get_startup_state, registered_startup_state, set_startup_enabled, startup_update_failed};

#[test]
fn default_settings_seed_a_day_and_a_night_point() {
    let settings = AppSettings::default();
    assert_eq!(settings.version, CURRENT_VERSION);
    assert!(settings.startup_enabled);
    assert!(settings.schedule_enabled);
    assert_eq!(settings.dim_step_percent, 500);
    assert_eq!(settings.dimming_method, DimmingMethod::Overlay);
    assert_eq!(settings.appearance_mode, None);
    assert_eq!(settings.schedule_points.len(), 2);
    assert_eq!(settings.schedule_points[0].time_of_day, "07:00:00");
    assert_eq!(settings.schedule_points[0].target_dim_percent, 0);
    assert_eq!(settings.schedule_points[0].transition_minutes, 30);
    assert_eq!(settings.schedule_points[1].time_of_day, "23:00:00");
    assert_eq!(settings.schedule_points[1].target_dim_percent, 5000);
    assert_eq!(settings.schedule_points[1].transition_minutes, 60);
    assert_ne!(settings.schedule_points[0].id, settings.schedule_points[1].id);
}

#[test]
fn default_hotkeys_are_alt_page_keys() {
    let hotkeys = ManualHotkeys::default();
    assert!(hotkeys.dim_more.enabled && hotkeys.dim_less.enabled);
    assert_eq!(hotkeys.dim_more.modifiers, "Alt");
    assert_eq!(hotkeys.dim_more.key, "PageDown");
    assert_eq!(hotkeys.dim_less.key, "PageUp");
    assert_eq!(default_dimming_method(), DimmingMethod::Overlay);
}

#[test]
fn stored_settings_are_normalized_and_missing_ones_defaulted() {
    let mut stored = AppSettings::default();
    stored.dim_step_percent = 9999;
    stored.version = 2;
    let loaded = settings_from_stored(Some(stored));
    assert_eq!(loaded.dim_step_percent, 2500);
    assert_eq!(loaded.version, CURRENT_VERSION);
    let fresh = settings_from_stored(None);
    assert_eq!(fresh.dim_step_percent, 500);
    assert_eq!(fresh.schedule_points.len(), 2);
}

#[test]
fn startup_registration_is_reported() {
    let unsupported = get_startup_state();
    assert!(!unsupported.is_enabled && !unsupported.can_change);
    assert_eq!(unsupported.status_text, "Startup is not implemented on this platform yet.");
    let unchanged = set_startup_enabled(true, "C:\\Dimsome.exe").unwrap();
    assert!(!unchanged.is_enabled);
    let on = registered_startup_state(true);
    assert!(on.is_enabled && on.can_change);
    assert_eq!(on.status_text, "Dimsome launches when you sign in.");
    let off = registered_startup_state(false);
    assert!(!off.is_enabled && off.can_change);
    assert_eq!(off.status_text, "Startup is off.");
    assert_eq!(startup_update_failed(), "Failed to update startup registration.");
}

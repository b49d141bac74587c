use vstd::prelude::*;

use crate::models::AppSettings;
use crate::schedule::{normalize_settings, normalized_settings};

verus! {

/// The settings to run with, from what the settings file held: the stored
/// settings where the file could be read and parsed, fresh defaults otherwise,
/// normalized either way.
pub fn settings_from_stored(stored: Option<AppSettings>) -> (r: AppSettings)
    ensures
        stored matches Some(s) ==> r@ == normalized_settings(s@),
        stored is None ==> exists|d: AppSettings| r@ == normalized_settings(d@) && #[trigger] default_settings_shape(d),
{
    match stored {
        Some(s) => normalize_settings(s),
        None => {
            let d = AppSettings::default();
            let ghost witness = d;
            assert(default_settings_shape(witness));
            let r = normalize_settings(d);
            assert(r@ == normalized_settings(witness@));
            r
        },
    }
}

/// The fields of `AppSettings::default()` other than the random point ids.
pub open spec fn default_settings_shape(d: AppSettings) -> bool {
    &&& d.version == crate::models::CURRENT_VERSION
    &&& d.startup_enabled
    &&& d.schedule_enabled
    &&& d.dim_step_percent == 500
    &&& d.dimming_method == crate::models::DimmingMethod::Overlay
    &&& d.appearance_mode is None
    &&& d.manual_hotkeys.dim_more@ == (crate::models::HotkeyBindingView {
        enabled: true,
        modifiers: crate::models::alt_chars(),
        key: crate::models::page_down_chars(),
    })
    &&& d.manual_hotkeys.dim_less@ == (crate::models::HotkeyBindingView {
        enabled: true,
        modifiers: crate::models::alt_chars(),
        key: crate::models::page_up_chars(),
    })
    &&& d.schedule_points@.len() == 2
    &&& d.schedule_points@[0].time_of_day@ == crate::models::seven_am_chars()
    &&& d.schedule_points@[0].target_dim_percent == 0
    &&& d.schedule_points@[0].transition_minutes == 30
    &&& d.schedule_points@[0].enabled
    &&& d.schedule_points@[1].time_of_day@ == crate::models::eleven_pm_chars()
    &&& d.schedule_points@[1].target_dim_percent == 5000
    &&& d.schedule_points@[1].transition_minutes == 60
    &&& d.schedule_points@[1].enabled
}

} // verus!

use vstd::prelude::*;

use crate::models::{
    AppSettings, AppSettingsView, DimmingCapabilities, DimmingMethod, EffectiveDimMode,
    EffectiveDimState, ManualOverrideSession, ZonedTime, zoned_time_wf, MAX_DIM, MAX_SCHEDULE_POINTS,
};
use crate::schedule::{
    clamp_dim, get_effective_dim, normalize_settings, normalized_settings, resolve_state,
    spec_effective_dim, spec_resolve,
};

verus! {

/// The highest level that the dim-more hotkey reaches, in hundredths of a percent
/// (95%, so at least 5% of the brightness always remains).
pub const HOTKEY_MAX_DIM: i64 = 9500;

/// The level a nudge leads to, before it is limited to 0%..=99%.
pub open spec fn nudged_level(current: int, step: int, direction: int, maximum: int) -> int {
    let nudged = current + step * direction;
    if direction > 0 {
        clamp_dim(if nudged < maximum { nudged } else { maximum })
    } else {
        clamp_dim(nudged)
    }
}

/// Moves `current` by `step` in `direction` (a multiple of the step; positive
/// dims more); a move that dims more stops at `maximum`; the result lies
/// within 0%..=99%. Levels are in hundredths of a percent.
pub fn nudge_target(current_dim_percent: i64, step_percent: i64, direction: i32, maximum_dim_percent: i64) -> (r: i64)
    ensures
        r == nudged_level(current_dim_percent as int, step_percent as int, direction as int, maximum_dim_percent as int),
        0 <= r <= MAX_DIM,
{
    let step: i128 = step_percent as i128;
    let dir: i128 = direction as i128;
    assert(-0x8000_0000_0000_0000 * 0x8000_0000 <= step * dir <= 0x8000_0000_0000_0000 * 0x8000_0000) by (nonlinear_arith)
        requires -0x8000_0000_0000_0000 <= step <= 0x7fff_ffff_ffff_ffff, -0x8000_0000 <= dir <= 0x7fff_ffff;
    let nudged: i128 = current_dim_percent as i128 + step * dir;
    let bounded: i128 = if direction > 0 && nudged > maximum_dim_percent as i128 {
        maximum_dim_percent as i128
    } else {
        nudged
    };
    if bounded < 0 {
        0
    } else if bounded > MAX_DIM as i128 {
        MAX_DIM
    } else {
        bounded as i64
    }
}

/// What `coerce_settings_for_capabilities` makes of settings.
pub open spec fn coerced_settings(s: AppSettingsView, magnification_available: bool) -> AppSettingsView {
    if !magnification_available && s.dimming_method == DimmingMethod::Magnification {
        AppSettingsView { dimming_method: DimmingMethod::Overlay, ..s }
    } else {
        s
    }
}

/// Falls back to the overlay method where the settings ask for magnification and
/// this machine cannot provide it.
pub fn coerce_settings_for_capabilities(settings: AppSettings, capabilities: &DimmingCapabilities) -> (r: AppSettings)
    ensures
        r@ == coerced_settings(settings@, capabilities.magnification_available),
{
    let mut settings = settings;
    if !capabilities.magnification_available && settings.dimming_method == DimmingMethod::Magnification {
        settings.dimming_method = DimmingMethod::Overlay;
    }
    settings
}

/// The state that the app keeps between refreshes: the settings in force, what
/// this machine can do, the last resolved dimming, and the manual or paused
/// session. Levels are in hundredths of a percent.
pub struct RuntimeState {
    pub settings: AppSettings,
    pub dimming_capabilities: DimmingCapabilities,
    pub current_state: EffectiveDimState,
    pub manual_dim_percent: Option<i64>,
    pub manual_override_until: Option<ZonedTime>,
    pub schedule_paused: bool,
    pub paused_dim_percent: i64,
}

impl RuntimeState {
    /// The largest schedule that the state holds (a bound on memory, not a rule).
    pub open spec fn wf(&self) -> bool {
        self.settings.schedule_points@.len() <= MAX_SCHEDULE_POINTS
    }

    /// The manual or paused session that resolution reads.
    pub open spec fn spec_session(&self) -> ManualOverrideSession {
        ManualOverrideSession {
            is_paused: self.schedule_paused,
            manual_dim_percent: self.manual_dim_percent,
            manual_override_until: self.manual_override_until,
            paused_dim_percent: self.paused_dim_percent,
        }
    }

    /// Starts from normalized settings, brought within what the machine can do,
    /// with no manual or paused session and a resolved level of 0 in auto mode.
    pub fn new(settings: AppSettings, dimming_capabilities: DimmingCapabilities) -> (r: RuntimeState)
        requires
            settings.schedule_points@.len() <= MAX_SCHEDULE_POINTS,
        ensures
            r.wf(),
            r.settings@ == coerced_settings(normalized_settings(settings@), dimming_capabilities.magnification_available),
            r.dimming_capabilities == dimming_capabilities,
            r.current_state == (EffectiveDimState {
                mode: EffectiveDimMode::Auto,
                current_dim_percent: 0,
                manual_override_until: None,
            }),
            r.manual_dim_percent is None,
            r.manual_override_until is None,
            !r.schedule_paused,
            r.paused_dim_percent == 0,
    {
        proof {
            crate::models::lemma_points_view(settings.schedule_points@);
        }
        let normalized = normalize_settings(settings);
        proof {
            crate::models::lemma_points_view(normalized.schedule_points@);
            crate::schedule::lemma_normalized_points_len(settings@.schedule_points);
        }
        let settings = coerce_settings_for_capabilities(normalized, &dimming_capabilities);
        proof {
            crate::models::lemma_points_view(settings.schedule_points@);
        }
        RuntimeState {
            settings,
            dimming_capabilities,
            current_state: EffectiveDimState {
                mode: EffectiveDimMode::Auto,
                current_dim_percent: 0,
                manual_override_until: None,
            },
            manual_dim_percent: None,
            manual_override_until: None,
            schedule_paused: false,
            paused_dim_percent: 0,
        }
    }

    pub fn session(&self) -> (r: ManualOverrideSession)
        ensures
            r == self.spec_session(),
    {
        ManualOverrideSession {
            is_paused: self.schedule_paused,
            manual_dim_percent: self.manual_dim_percent,
            manual_override_until: self.manual_override_until,
            paused_dim_percent: self.paused_dim_percent,
        }
    }

    /// Resolves the dimming at `now` and records it; once the schedule is back in
    /// charge, the manual level and its expiry are dropped. The caller applies the
    /// returned level with the settings' dimming method and announces it.
    pub fn refresh_state(&mut self, now: ZonedTime) -> (r: EffectiveDimState)
        requires
            old(self).wf(),
            zoned_time_wf(now),
        ensures
            final(self).wf(),
            (r.mode, r.current_dim_percent as int, r.manual_override_until)
                == spec_resolve(old(self).settings@, old(self).spec_session(), now),
            final(self).current_state == r,
            final(self).settings@ == old(self).settings@,
            final(self).dimming_capabilities == old(self).dimming_capabilities,
            final(self).schedule_paused == old(self).schedule_paused,
            final(self).paused_dim_percent == old(self).paused_dim_percent,
            r.mode == EffectiveDimMode::Auto ==> final(self).manual_dim_percent is None
                && final(self).manual_override_until is None,
            r.mode != EffectiveDimMode::Auto ==> final(self).manual_dim_percent == old(self).manual_dim_percent
                && final(self).manual_override_until == old(self).manual_override_until,
    {
        let session = self.session();
        let next = resolve_state(&self.settings, &session, now);
        self.current_state = next;
        if next.mode == EffectiveDimMode::Auto {
            self.manual_dim_percent = None;
            self.manual_override_until = None;
        }
        next
    }

    /// Takes a manual level that lasts until the next scheduled transition starts
    /// (or indefinitely, where the schedule names none or does not validate), and
    /// ends any pause. The caller refreshes afterwards.
    pub fn apply_manual_dim(&mut self, dim_percent: i64, now: ZonedTime)
        requires
            old(self).wf(),
            zoned_time_wf(now),
        ensures
            final(self).wf(),
            final(self).manual_dim_percent == Some(dim_percent),
            !final(self).schedule_paused,
            final(self).wf() == old(self).wf(),
            final(self).manual_override_until == (match spec_effective_dim(old(self).settings@, now) {
                Ok((_, next)) => next,
                Err(_) => None,
            }),
            final(self).settings@ == old(self).settings@,
            final(self).dimming_capabilities == old(self).dimming_capabilities,
            final(self).current_state == old(self).current_state,
            final(self).paused_dim_percent == old(self).paused_dim_percent,
    {
        self.manual_dim_percent = Some(dim_percent);
        self.schedule_paused = false;
        self.manual_override_until = match get_effective_dim(&self.settings, now) {
            Ok(schedule) => schedule.next_transition_start,
            Err(_) => None,
        };
    }

    /// The level that a hotkey nudge in `direction` asks for: one dim step from
    /// the current level, with dimming more capped at 95%.
    pub fn nudge_hotkey(&self, direction: i32) -> (r: i64)
        ensures
            r == nudged_level(
                self.current_state.current_dim_percent as int,
                self.settings.dim_step_percent as int,
                direction as int,
                HOTKEY_MAX_DIM as int,
            ),
            0 <= r <= MAX_DIM,
    {
        nudge_target(self.current_state.current_dim_percent, self.settings.dim_step_percent, direction, HOTKEY_MAX_DIM)
    }

    /// Freezes the current level: a paused session at that level, with no manual
    /// level. The caller refreshes afterwards.
    pub fn pause(&mut self)
        ensures
            final(self).schedule_paused,
            final(self).manual_dim_percent is None,
            final(self).manual_override_until is None,
            final(self).paused_dim_percent == old(self).current_state.current_dim_percent,
            final(self).wf() == old(self).wf(),
            final(self).settings@ == old(self).settings@,
            final(self).dimming_capabilities == old(self).dimming_capabilities,
            final(self).current_state == old(self).current_state,
    {
        self.schedule_paused = true;
        self.manual_dim_percent = None;
        self.manual_override_until = None;
        self.paused_dim_percent = self.current_state.current_dim_percent;
    }

    /// Hands control back to the schedule: no pause and no manual level. The
    /// caller refreshes afterwards.
    pub fn resume(&mut self)
        ensures
            !final(self).schedule_paused,
            final(self).wf() == old(self).wf(),
            final(self).manual_dim_percent is None,
            final(self).manual_override_until is None,
            final(self).paused_dim_percent == old(self).paused_dim_percent,
            final(self).settings@ == old(self).settings@,
            final(self).dimming_capabilities == old(self).dimming_capabilities,
            final(self).current_state == old(self).current_state,
    {
        self.schedule_paused = false;
        self.manual_dim_percent = None;
        self.manual_override_until = None;
    }

    /// The settings as they are to be saved: brought within what this machine can do.
    pub fn settings_to_save(&self, settings: AppSettings) -> (r: AppSettings)
        ensures
            r@ == coerced_settings(settings@, self.dimming_capabilities.magnification_available),
    {
        coerce_settings_for_capabilities(settings, &self.dimming_capabilities)
    }

    /// Puts saved settings in force; where they validate, a manual level now lasts
    /// until their next transition starts. The caller refreshes afterwards.
    pub fn install_saved_settings(&mut self, saved: AppSettings, now: ZonedTime)
        requires
            saved.schedule_points@.len() <= MAX_SCHEDULE_POINTS,
            zoned_time_wf(now),
        ensures
            final(self).wf(),
            final(self).settings@ == saved@,
            final(self).manual_override_until == (match spec_effective_dim(saved@, now) {
                Ok((_, next)) => next,
                Err(_) => old(self).manual_override_until,
            }),
            final(self).manual_dim_percent == old(self).manual_dim_percent,
            final(self).schedule_paused == old(self).schedule_paused,
            final(self).paused_dim_percent == old(self).paused_dim_percent,
            final(self).dimming_capabilities == old(self).dimming_capabilities,
            final(self).current_state == old(self).current_state,
    {
        self.settings = saved;
        if let Ok(schedule) = get_effective_dim(&self.settings, now) {
            self.manual_override_until = schedule.next_transition_start;
        }
    }
}


/// A pause holds the level that was in force when it began, whatever the
/// schedule or a manual level would say.
pub proof fn law_pause_holds_level(s: AppSettingsView, session: ManualOverrideSession, current_dim_percent: i64, now: ZonedTime)
    requires
        session.is_paused,
        session.paused_dim_percent == current_dim_percent,
    ensures
        spec_resolve(s, session, now) == (EffectiveDimMode::Paused, clamp_dim(current_dim_percent as int), None::<ZonedTime>),
{
}

/// After a resume, with no pause and no manual level, the schedule decides.
pub proof fn law_resume_hands_back_to_schedule(s: AppSettingsView, session: ManualOverrideSession, now: ZonedTime)
    requires
        !session.is_paused,
        session.manual_dim_percent is None,
    ensures
        spec_resolve(s, session, now).0 == EffectiveDimMode::Auto,
        spec_resolve(s, session, now).1 == crate::schedule::scheduled_level(s, now),
{
}

/// A manual level holds until its expiry: before it the level is the manual one,
/// from it on the schedule decides again.
pub proof fn law_manual_level_holds_until_expiry(s: AppSettingsView, session: ManualOverrideSession, now: ZonedTime)
    requires
        !session.is_paused,
        session.manual_dim_percent is Some,
    ensures
        (session.manual_override_until is None || crate::schedule::instant_before(now, session.manual_override_until->0))
            ==> spec_resolve(s, session, now) == (EffectiveDimMode::Manual, clamp_dim(session.manual_dim_percent->0 as int), session.manual_override_until),
        (session.manual_override_until is Some && !crate::schedule::instant_before(now, session.manual_override_until->0))
            ==> spec_resolve(s, session, now).0 == EffectiveDimMode::Auto,
{
}

/// Dimming more never goes past the cap (when the cap is a level), and the cap
/// plays no part in dimming less.
pub proof fn law_hotkey_cap(current: int, step: int, direction: int, maximum: int)
    ensures
        direction > 0 && 0 <= maximum ==> nudged_level(current, step, direction, maximum) <= maximum,
        direction <= 0 ==> nudged_level(current, step, direction, maximum) == clamp_dim(current + step * direction),
        0 <= nudged_level(current, step, direction, maximum) <= MAX_DIM,
{
}

/// Where magnification is unavailable, coerced settings never ask for it, and
/// nothing else about them changes.
pub proof fn law_coerced_settings_are_available(s: AppSettingsView, magnification_available: bool)
    ensures
        !magnification_available ==> coerced_settings(s, magnification_available).dimming_method != DimmingMethod::Magnification,
        coerced_settings(s, magnification_available).schedule_points == s.schedule_points,
        coerced_settings(s, magnification_available).manual_hotkeys == s.manual_hotkeys,
        coerced_settings(s, magnification_available).dim_step_percent == s.dim_step_percent,
{
}

/// Dimming more moves by the configured step, just as dimming less does: below the
/// cap, a step up adds exactly the step, and a step down from there comes back;
/// a step that would pass the cap stops at it.
pub proof fn law_hotkey_steps_by_the_configured_step(current: int, step: int, direction: int, maximum: int)
    requires
        0 <= current <= MAX_DIM,
        0 <= step,
        direction > 0,
        0 <= maximum <= MAX_DIM,
    ensures
        current + step * direction <= maximum ==> nudged_level(current, step, direction, maximum) == current + step * direction
            && nudged_level(current + step * direction, step, -direction, maximum) == current,
        current + step * direction >= maximum ==> nudged_level(current, step, direction, maximum) == maximum,
{
    assert(step * direction >= 0) by (nonlinear_arith)
        requires step >= 0, direction > 0;
    assert(step * (-direction) == -(step * direction)) by (nonlinear_arith);
}

} // verus!

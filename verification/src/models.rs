use vstd::prelude::*;
use vstd::string::StringExecFns;

verus! {

/// The settings format version that this library writes.
pub const CURRENT_VERSION: i32 = 3;

/// The most schedule points that the library lays out: five days of occurrences
/// of this many points can be counted in a `usize` on every target. It is a limit
/// of the machine, not of the schedule: a 32-bit target cannot hold this many
/// points in memory at all, and a 64-bit one holds none near it in practice.
pub const MAX_SCHEDULE_POINTS: usize = 100_000_000;

/// The highest dim level, in hundredths of a percent (99%).
pub const MAX_DIM: i64 = 9900;

#[derive(Clone, Copy, Debug, PartialEq, Eq, Structural)]
pub enum AppearanceMode {
    Light,
    Dark,
}

#[derive(Clone, Copy, Debug, PartialEq, Eq, Structural)]
pub enum DimmingMethod {
    Overlay,
    Gamma,
    Magnification,
}

/// The dimming method that settings fall back to when they name none.
pub fn default_dimming_method() -> (m: DimmingMethod)
    ensures
        m == DimmingMethod::Overlay,
{
    DimmingMethod::Overlay
}

/// A global hotkey: a modifier list such as `"Alt"` or `"Control+Shift"` and a key name.
#[derive(Debug)]
pub struct HotkeyBinding {
    pub enabled: bool,
    pub modifiers: String,
    pub key: String,
}

pub struct HotkeyBindingView {
    pub enabled: bool,
    pub modifiers: Seq<char>,
    pub key: Seq<char>,
}

impl View for HotkeyBinding {
    type V = HotkeyBindingView;

    open spec fn view(&self) -> HotkeyBindingView {
        HotkeyBindingView { enabled: self.enabled, modifiers: self.modifiers@, key: self.key@ }
    }
}

impl HotkeyBinding {
    pub fn duplicate(&self) -> (r: HotkeyBinding)
        ensures
            r@ == self@,
    {
        HotkeyBinding {
            enabled: self.enabled,
            modifiers: self.modifiers.clone(),
            key: self.key.clone(),
        }
    }
}

#[derive(Debug)]
pub struct ManualHotkeys {
    pub dim_more: HotkeyBinding,
    pub dim_less: HotkeyBinding,
}

pub struct ManualHotkeysView {
    pub dim_more: HotkeyBindingView,
    pub dim_less: HotkeyBindingView,
}

impl View for ManualHotkeys {
    type V = ManualHotkeysView;

    open spec fn view(&self) -> ManualHotkeysView {
        ManualHotkeysView { dim_more: self.dim_more@, dim_less: self.dim_less@ }
    }
}

pub open spec fn alt_chars() -> Seq<char> {
    seq!['A', 'l', 't']
}

pub open spec fn page_down_chars() -> Seq<char> {
    seq!['P', 'a', 'g', 'e', 'D', 'o', 'w', 'n']
}

pub open spec fn page_up_chars() -> Seq<char> {
    seq!['P', 'a', 'g', 'e', 'U', 'p']
}

impl ManualHotkeys {
    pub fn duplicate(&self) -> (r: ManualHotkeys)
        ensures
            r@ == self@,
    {
        ManualHotkeys { dim_more: self.dim_more.duplicate(), dim_less: self.dim_less.duplicate() }
    }
}

impl Default for ManualHotkeys {
    /// Alt+PageDown dims more and Alt+PageUp dims less, both enabled.
    fn default() -> (r: ManualHotkeys)
        ensures
            r.dim_more@ == (HotkeyBindingView {
                enabled: true,
                modifiers: alt_chars(),
                key: page_down_chars(),
            }),
            r.dim_less@ == (HotkeyBindingView {
                enabled: true,
                modifiers: alt_chars(),
                key: page_up_chars(),
            }),
    {
        proof {
            reveal_strlit("Alt");
            reveal_strlit("PageDown");
            reveal_strlit("PageUp");
        }
        let r = ManualHotkeys {
            dim_more: HotkeyBinding {
                enabled: true,
                modifiers: String::from_str("Alt"),
                key: String::from_str("PageDown"),
            },
            dim_less: HotkeyBinding {
                enabled: true,
                modifiers: String::from_str("Alt"),
                key: String::from_str("PageUp"),
            },
        };
        assert(r.dim_more.modifiers@ =~= alt_chars());
        assert(r.dim_more.key@ =~= page_down_chars());
        assert(r.dim_less.key@ =~= page_up_chars());
        r
    }
}

/// A point of the daily schedule. `target_dim_percent` is in hundredths of a
/// percent (2500 is 25%); `time_of_day` is text such as `"23:00:00"` or `"7:30"`.
#[derive(Debug)]
pub struct SchedulePoint {
    pub id: u128,
    pub time_of_day: String,
    pub target_dim_percent: i64,
    pub transition_minutes: i32,
    pub enabled: bool,
}

pub struct SchedulePointView {
    pub id: u128,
    pub time_of_day: Seq<char>,
    pub target_dim_percent: i64,
    pub transition_minutes: i32,
    pub enabled: bool,
}

impl View for SchedulePoint {
    type V = SchedulePointView;

    open spec fn view(&self) -> SchedulePointView {
        SchedulePointView {
            id: self.id,
            time_of_day: self.time_of_day@,
            target_dim_percent: self.target_dim_percent,
            transition_minutes: self.transition_minutes,
            enabled: self.enabled,
        }
    }
}

impl SchedulePoint {
    pub fn duplicate(&self) -> (r: SchedulePoint)
        ensures
            r@ == self@,
    {
        SchedulePoint {
            id: self.id,
            time_of_day: self.time_of_day.clone(),
            target_dim_percent: self.target_dim_percent,
            transition_minutes: self.transition_minutes,
            enabled: self.enabled,
        }
    }
}

pub open spec fn points_view(points: Seq<SchedulePoint>) -> Seq<SchedulePointView> {
    Seq::new(points.len(), |i: int| points[i]@)
}

pub proof fn lemma_points_view(points: Seq<SchedulePoint>)
    ensures
        points_view(points).len() == points.len(),
        forall|k: int| 0 <= k < points.len() ==> #[trigger] points_view(points)[k] == points[k]@,
{
}

pub fn duplicate_points(points: &Vec<SchedulePoint>) -> (r: Vec<SchedulePoint>)
    ensures
        points_view(r@) == points_view(points@),
{
    let mut r: Vec<SchedulePoint> = Vec::new();
    let mut i: usize = 0;
    while i < points.len()
        invariant
            i <= points.len(),
            points_view(r@) == points_view(points@.subrange(0, i as int)),
        decreases points.len() - i,
    {
        let ghost before = r@;
        let p = points[i].duplicate();
        r.push(p);
        proof {
            lemma_points_view(before);
            lemma_points_view(r@);
            lemma_points_view(points@);
            lemma_points_view(points@.subrange(0, i as int));
            lemma_points_view(points@.subrange(0, i as int + 1));
        }
        assert forall|k: int| 0 <= k < i implies r@[k]@ == points@[k]@ by {
            assert(before[k]@ == points_view(before)[k]);
            assert(points_view(points@.subrange(0, i as int))[k] == points@[k]@);
        }
        i = i + 1;
        assert(points_view(r@) =~= points_view(points@.subrange(0, i as int)));
    }
    assert(points@.subrange(0, points@.len() as int) =~= points@);
    r
}

/// All persisted settings. `dim_step_percent` is in hundredths of a percent.
#[derive(Debug)]
pub struct AppSettings {
    pub version: i32,
    pub startup_enabled: bool,
    pub schedule_enabled: bool,
    pub dim_step_percent: i64,
    pub dimming_method: DimmingMethod,
    pub appearance_mode: Option<AppearanceMode>,
    pub manual_hotkeys: ManualHotkeys,
    pub schedule_points: Vec<SchedulePoint>,
}

pub struct AppSettingsView {
    pub version: i32,
    pub startup_enabled: bool,
    pub schedule_enabled: bool,
    pub dim_step_percent: i64,
    pub dimming_method: DimmingMethod,
    pub appearance_mode: Option<AppearanceMode>,
    pub manual_hotkeys: ManualHotkeysView,
    pub schedule_points: Seq<SchedulePointView>,
}

impl View for AppSettings {
    type V = AppSettingsView;

    open spec fn view(&self) -> AppSettingsView {
        AppSettingsView {
            version: self.version,
            startup_enabled: self.startup_enabled,
            schedule_enabled: self.schedule_enabled,
            dim_step_percent: self.dim_step_percent,
            dimming_method: self.dimming_method,
            appearance_mode: self.appearance_mode,
            manual_hotkeys: self.manual_hotkeys@,
            schedule_points: points_view(self.schedule_points@),
        }
    }
}

impl AppSettings {
    pub fn duplicate(&self) -> (r: AppSettings)
        ensures
            r@ == self@,
    {
        AppSettings {
            version: self.version,
            startup_enabled: self.startup_enabled,
            schedule_enabled: self.schedule_enabled,
            dim_step_percent: self.dim_step_percent,
            dimming_method: self.dimming_method,
            appearance_mode: self.appearance_mode,
            manual_hotkeys: self.manual_hotkeys.duplicate(),
            schedule_points: duplicate_points(&self.schedule_points),
        }
    }
}

/// `uuid::Uuid::new_v4` read as its 128-bit value: a fresh random identifier,
/// so nothing is stated of it.
#[verifier::external_body]
fn new_point_id() -> u128 {
    uuid::Uuid::new_v4().as_u128()
}

pub open spec fn seven_am_chars() -> Seq<char> {
    seq!['0', '7', ':', '0', '0', ':', '0', '0']
}

pub open spec fn eleven_pm_chars() -> Seq<char> {
    seq!['2', '3', ':', '0', '0', ':', '0', '0']
}

impl Default for AppSettings {
    /// Fresh settings: startup and schedule on, a 5% step, the overlay method, the
    /// default hotkeys, and two enabled points, 07:00:00 at 0% over 30 minutes and
    /// 23:00:00 at 50% over 60 minutes, each with a fresh random id.
    fn default() -> (r: AppSettings)
        ensures
            r.version == CURRENT_VERSION,
            r.startup_enabled,
            r.schedule_enabled,
            r.dim_step_percent == 500,
            r.dimming_method == DimmingMethod::Overlay,
            r.appearance_mode is None,
            r.manual_hotkeys.dim_more@ == (HotkeyBindingView {
                enabled: true,
                modifiers: alt_chars(),
                key: page_down_chars(),
            }),
            r.manual_hotkeys.dim_less@ == (HotkeyBindingView {
                enabled: true,
                modifiers: alt_chars(),
                key: page_up_chars(),
            }),
            r.schedule_points@.len() == 2,
            r.schedule_points@[0].time_of_day@ == seven_am_chars(),
            r.schedule_points@[0].target_dim_percent == 0,
            r.schedule_points@[0].transition_minutes == 30,
            r.schedule_points@[0].enabled,
            r.schedule_points@[1].time_of_day@ == eleven_pm_chars(),
            r.schedule_points@[1].target_dim_percent == 5000,
            r.schedule_points@[1].transition_minutes == 60,
            r.schedule_points@[1].enabled,
    {
        proof {
            reveal_strlit("07:00:00");
            reveal_strlit("23:00:00");
        }
        let mut points: Vec<SchedulePoint> = Vec::new();
        let morning = SchedulePoint {
            id: new_point_id(),
            time_of_day: String::from_str("07:00:00"),
            target_dim_percent: 0,
            transition_minutes: 30,
            enabled: true,
        };
        assert(morning.time_of_day@ =~= seven_am_chars());
        points.push(morning);
        let night = SchedulePoint {
            id: new_point_id(),
            time_of_day: String::from_str("23:00:00"),
            target_dim_percent: 5000,
            transition_minutes: 60,
            enabled: true,
        };
        assert(night.time_of_day@ =~= eleven_pm_chars());
        points.push(night);
        AppSettings {
            version: CURRENT_VERSION,
            startup_enabled: true,
            schedule_enabled: true,
            dim_step_percent: 500,
            dimming_method: default_dimming_method(),
            appearance_mode: None,
            manual_hotkeys: ManualHotkeys::default(),
            schedule_points: points,
        }
    }
}

#[derive(Clone, Copy, Debug, PartialEq, Eq, Structural)]
pub enum EffectiveDimMode {
    Auto,
    Manual,
    Paused,
}

/// An instant with the UTC offset it is read in: `seconds` since the Unix epoch
/// (UTC), a sub-second part in nanoseconds, and the offset east of UTC in seconds.
#[derive(Clone, Copy, Debug, PartialEq, Eq, Structural)]
pub struct ZonedTime {
    pub seconds: i64,
    pub nanos: u32,
    pub offset_seconds: i32,
}

/// The bound on seconds that every representable date-time meets (about
/// 317,000 years either side of 1970), and the range of a fixed UTC offset.
pub open spec fn zoned_time_wf(t: ZonedTime) -> bool {
    &&& -10_000_000_000_000 <= t.seconds <= 10_000_000_000_000
    &&& -86_400 < t.offset_seconds < 86_400
    &&& t.nanos < 2_000_000_000
}

#[derive(Clone, Copy, Debug, PartialEq, Eq, Structural)]
pub struct EffectiveDimState {
    pub mode: EffectiveDimMode,
    pub current_dim_percent: i64,
    pub manual_override_until: Option<ZonedTime>,
}

#[derive(Clone, Copy, Debug, PartialEq, Eq, Structural)]
pub struct ManualOverrideSession {
    pub is_paused: bool,
    pub manual_dim_percent: Option<i64>,
    pub manual_override_until: Option<ZonedTime>,
    pub paused_dim_percent: i64,
}

#[derive(Clone, Copy, Debug, PartialEq, Eq, Structural)]
pub struct ScheduleEvaluation {
    pub current_dim_percent: i64,
    pub next_transition_start: Option<ZonedTime>,
}

#[derive(Debug)]
pub struct StartupRegistrationState {
    pub is_enabled: bool,
    pub can_change: bool,
    pub status_text: String,
}

#[derive(Debug)]
pub struct DimmingCapabilities {
    pub magnification_available: bool,
    pub magnification_status_text: String,
}

} // verus!

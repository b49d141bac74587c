use vstd::prelude::*;
use vstd::string::StringExecFns;

use crate::models::{DimmingCapabilities, DimmingMethod, MAX_DIM};
use crate::schedule::{clamp_dim, clamp_dim_precise};
use crate::text::chars_of;

verus! {

/// The gamma value that ramp entry `index` takes at a dim level (hundredths of a
/// percent): the identity value `index * 257` scaled by the remaining brightness,
/// rounded to the nearest integer, halves up.
pub open spec fn gamma_value(dim_percent: int, index: int) -> int {
    (2 * index * 257 * (10000 - clamp_dim(dim_percent)) + 10000) / 20000
}

/// A gamma ramp for a dim level: three identical channels (red, green, blue) of
/// 256 entries each.
pub fn build_gamma_ramp(dim_percent: i64) -> (ramp: Vec<Vec<u16>>)
    ensures
        ramp@.len() == 3,
        forall|c: int| 0 <= c < 3 ==> (#[trigger] ramp@[c])@.len() == 256,
        forall|c: int, i: int| 0 <= c < 3 && 0 <= i < 256 ==> #[trigger] ramp@[c]@[i] as int == gamma_value(dim_percent as int, i),
{
    let brightness: u64 = (10000 - clamp_dim_precise(dim_percent)) as u64;
    let mut channel: Vec<u16> = Vec::new();
    let mut index: u64 = 0;
    while index < 256
        invariant
            index <= 256,
            0 <= brightness <= 10000,
            brightness == 10000 - clamp_dim(dim_percent as int),
            channel@.len() == index,
            forall|i: int| 0 <= i < index ==> #[trigger] channel@[i] as int == gamma_value(dim_percent as int, i),
        decreases 256 - index,
    {
        let identity: u64 = index * 257;
        assert(identity <= 65535);
        let doubled: u64 = 2 * identity;
        assert(doubled * brightness <= 131070 * 10000) by (nonlinear_arith)
            requires doubled <= 131070, brightness <= 10000;
        let scaled: u64 = (doubled * brightness + 10000) / 20000;
        assert(scaled <= 65535) by (nonlinear_arith)
            requires scaled == (doubled * brightness + 10000) / 20000, doubled <= 131070, brightness <= 10000;
        assert(doubled * brightness == 2 * (index as int) * 257 * brightness) by (nonlinear_arith)
            requires identity == index * 257, doubled == 2 * identity;
        channel.push(scaled as u16);
        index = index + 1;
    }
    let mut ramp: Vec<Vec<u16>> = Vec::new();
    ramp.push(channel.clone());
    ramp.push(channel.clone());
    ramp.push(channel);
    ramp
}

/// The gamma ramp that leaves the screen as it is.
pub fn build_identity_gamma_ramp() -> (ramp: Vec<Vec<u16>>)
    ensures
        ramp@.len() == 3,
        forall|c: int| 0 <= c < 3 ==> (#[trigger] ramp@[c])@.len() == 256,
        forall|c: int, i: int| 0 <= c < 3 && 0 <= i < 256 ==> #[trigger] ramp@[c]@[i] as int == i * 257,
{
    let ramp = build_gamma_ramp(0);
    assert forall|c: int, i: int| 0 <= c < 3 && 0 <= i < 256 implies #[trigger] ramp@[c]@[i] as int == i * 257 by {
        assert(gamma_value(0, i) == i * 257) by (nonlinear_arith)
            requires 0 <= i < 256, gamma_value(0, i) == (2 * i * 257 * 10000 + 10000) / 20000;
    }
    ramp
}

/// The scale of the magnification color matrix: an entry of 10000 stands for 1.0.
pub const MAGNIFICATION_SCALE: u32 = 10000;

/// A 5x5 color matrix for Windows Magnification, row by row, in ten-thousandths.
pub struct MagnificationEffect {
    pub transform: Vec<u32>,
}

/// Entry `i` of the matrix that scales red, green and blue by `scale` and keeps
/// alpha and the translation row as they are.
pub open spec fn magnification_entry(scale: int, i: int) -> int {
    if i == 0 || i == 6 || i == 12 {
        scale
    } else if i == 18 || i == 24 {
        MAGNIFICATION_SCALE as int
    } else {
        0
    }
}

/// The color matrix for a dim level: red, green and blue scaled by the remaining
/// brightness, alpha and translation untouched.
pub fn build_magnification_effect(dim_percent: i64) -> (r: MagnificationEffect)
    ensures
        r.transform@.len() == 25,
        forall|i: int| 0 <= i < 25 ==> #[trigger] r.transform@[i] as int == magnification_entry(10000 - clamp_dim(dim_percent as int), i),
{
    let scale: u32 = (10000 - clamp_dim_precise(dim_percent)) as u32;
    let mut transform: Vec<u32> = Vec::new();
    let mut i: usize = 0;
    while i < 25
        invariant
            i <= 25,
            scale == 10000 - clamp_dim(dim_percent as int),
            transform@.len() == i,
            forall|k: int| 0 <= k < i ==> #[trigger] transform@[k] as int == magnification_entry(scale as int, k),
        decreases 25 - i,
    {
        let entry: u32 = if i == 0 || i == 6 || i == 12 {
            scale
        } else if i == 18 || i == 24 {
            MAGNIFICATION_SCALE
        } else {
            0
        };
        transform.push(entry);
        i = i + 1;
    }
    MagnificationEffect { transform }
}

/// The color matrix that leaves the screen as it is.
pub fn build_identity_magnification_effect() -> (r: MagnificationEffect)
    ensures
        r.transform@.len() == 25,
        forall|i: int| 0 <= i < 25 ==> #[trigger] r.transform@[i] as int == magnification_entry(MAGNIFICATION_SCALE as int, i),
{
    build_magnification_effect(0)
}

/// The opacity of the black overlay for a dim level: the level's share of 255,
/// rounded to the nearest integer, halves up.
pub open spec fn overlay_alpha_value(dim_percent: int) -> int {
    (2 * clamp_dim(dim_percent) * 255 + 10000) / 20000
}

pub fn overlay_alpha(dim_percent: i64) -> (r: u8)
    ensures
        r == overlay_alpha_value(dim_percent as int),
{
    let c: i64 = clamp_dim_precise(dim_percent);
    ((2 * c * 255 + 10000) / 20000) as u8
}

/// The UTF-16 code units of one character.
pub open spec fn utf16_units(c: char) -> Seq<u16> {
    let u = c as u32;
    if u < 0x10000 {
        seq![u as u16]
    } else {
        seq![(0xD800 + (u - 0x10000) / 1024) as u16, (0xDC00 + (u - 0x10000) % 1024) as u16]
    }
}

/// The UTF-16 encoding of a character sequence.
pub open spec fn utf16(s: Seq<char>) -> Seq<u16>
    decreases s.len(),
{
    if s.len() == 0 {
        Seq::<u16>::empty()
    } else {
        utf16(s.drop_last()) + utf16_units(s.last())
    }
}

/// A string as a NUL-terminated UTF-16 buffer, as Win32 wide-string calls take it.
pub fn widestr(value: &str) -> (r: Vec<u16>)
    ensures
        r@ == utf16(value@).push(0u16),
{
    let chars = chars_of(value);
    let mut r: Vec<u16> = Vec::new();
    let mut i: usize = 0;
    while i < chars.len()
        invariant
            i <= chars@.len(),
            chars@ == value@,
            r@ == utf16(chars@.take(i as int)),
        decreases chars.len() - i,
    {
        let c = chars[i];
        let u: u32 = c as u32;
        proof {
            vstd::utf8::char_is_scalar(c);
        }
        assert(u <= 0x10FFFF);
        assert(chars@.take(i as int + 1).drop_last() =~= chars@.take(i as int));
        assert(chars@.take(i as int + 1).last() == c);
        let ghost before = r@;
        if u < 0x10000 {
            r.push(u as u16);
            assert(r@ =~= before + utf16_units(c));
        } else {
            let v: u32 = u - 0x10000;
            let high: u32 = 0xD800 + v / 1024;
            let low: u32 = 0xDC00 + v % 1024;
            assert(high <= 0xDBFF);
            assert(low <= 0xDFFF);
            r.push(high as u16);
            r.push(low as u16);
            assert(r@ =~= before + utf16_units(c));
        }
        assert(r@ =~= utf16(chars@.take(i as int + 1)));
        i = i + 1;
    }
    assert(chars@.take(chars@.len() as int) =~= chars@);
    r.push(0);
    r
}

pub open spec fn magnification_available_text() -> Seq<char> {
    "Magnification uses a full-desktop Windows color effect without zoom and affects all displays at once."@
}

pub open spec fn magnification_unavailable_text() -> Seq<char> {
    "Magnification is unavailable in this process/runtime and has been disabled."@
}

/// What the capability probe concludes: magnification is available only where
/// it both initialized and shut down cleanly.
pub fn capabilities_from_probe(initialized: bool, uninitialized: bool) -> (r: DimmingCapabilities)
    ensures
        r.magnification_available == (initialized && uninitialized),
        r.magnification_available ==> r.magnification_status_text@ == magnification_available_text(),
        !r.magnification_available ==> r.magnification_status_text@ == magnification_unavailable_text(),
{
    if initialized && uninitialized {
        DimmingCapabilities {
            magnification_available: true,
            magnification_status_text: String::from_str(
                "Magnification uses a full-desktop Windows color effect without zoom and affects all displays at once.",
            ),
        }
    } else {
        DimmingCapabilities {
            magnification_available: false,
            magnification_status_text: String::from_str(
                "Magnification is unavailable in this process/runtime and has been disabled.",
            ),
        }
    }
}

/// What the dimming thread remembers between commands: the method in use, the
/// level last applied, and whether the level must be applied again.
#[derive(Clone, Copy, Debug, PartialEq, Eq, Structural)]
pub struct DimmingThreadState {
    pub active_method: Option<DimmingMethod>,
    pub last_applied_dim_percent: Option<i64>,
    pub needs_apply: bool,
}

/// The thread state after a sync for `method` begins, and the method to shut down.
pub open spec fn begin_sync_step(st: DimmingThreadState, method: DimmingMethod) -> (DimmingThreadState, Option<DimmingMethod>) {
    if st.active_method != Some(method) {
        (DimmingThreadState { active_method: Some(method), last_applied_dim_percent: None, needs_apply: true }, st.active_method)
    } else {
        (st, None)
    }
}

/// The thread state after deciding whether to apply, and the decision.
pub open spec fn should_apply_step(st: DimmingThreadState, dim_percent: i64, monitors_changed: bool) -> (DimmingThreadState, bool) {
    let apply = st.needs_apply || monitors_changed || st.last_applied_dim_percent != Some(dim_percent);
    (DimmingThreadState { needs_apply: apply, ..st }, apply)
}

/// The thread state after an attempt to apply a level.
pub open spec fn finish_apply_step(st: DimmingThreadState, dim_percent: i64, had_failures: bool) -> DimmingThreadState {
    DimmingThreadState { last_applied_dim_percent: Some(dim_percent), needs_apply: had_failures, ..st }
}

impl DimmingThreadState {
    /// No method in use and nothing applied yet.
    pub fn new() -> (r: DimmingThreadState)
        ensures
            r == (DimmingThreadState { active_method: None, last_applied_dim_percent: None, needs_apply: true }),
    {
        DimmingThreadState { active_method: None, last_applied_dim_percent: None, needs_apply: true }
    }

    /// A sync asks for `method`: switching methods hands back the one to shut
    /// down (if any), forgets the level last applied and asks for an apply.
    pub fn begin_sync(&mut self, method: DimmingMethod) -> (deactivate: Option<DimmingMethod>)
        ensures
            (*final(self), deactivate) == begin_sync_step(*old(self), method),
    {
        if self.active_method != Some(method) {
            let previous = self.active_method;
            self.active_method = Some(method);
            self.last_applied_dim_percent = None;
            self.needs_apply = true;
            previous
        } else {
            None
        }
    }

    /// Whether the level must be applied: after a change of monitors or of level,
    /// or while the last attempt has not succeeded.
    pub fn should_apply(&mut self, dim_percent: i64, monitors_changed: bool) -> (r: bool)
        ensures
            (*final(self), r) == should_apply_step(*old(self), dim_percent, monitors_changed),
    {
        if monitors_changed || self.last_applied_dim_percent != Some(dim_percent) {
            self.needs_apply = true;
        }
        self.needs_apply
    }

    /// Records an attempt to apply a level; a failed attempt is retried next time.
    pub fn finish_apply(&mut self, dim_percent: i64, had_failures: bool)
        ensures
            *final(self) == finish_apply_step(*old(self), dim_percent, had_failures),
    {
        self.last_applied_dim_percent = Some(dim_percent);
        self.needs_apply = had_failures;
    }

    /// A reset to full brightness with `method`: hands back the method to shut
    /// down first (if another was in use).
    pub fn begin_reset(&mut self, method: DimmingMethod) -> (deactivate: Option<DimmingMethod>)
        ensures
            final(self).active_method == Some(method),
            final(self).last_applied_dim_percent == old(self).last_applied_dim_percent,
            final(self).needs_apply == old(self).needs_apply,
            deactivate == (if old(self).active_method != Some(method) { old(self).active_method } else { None }),
    {
        if self.active_method != Some(method) {
            let previous = self.active_method;
            self.active_method = Some(method);
            previous
        } else {
            None
        }
    }

    /// Records the reset: full brightness applied, and magnification, which the
    /// reset shuts down, no longer in use.
    pub fn finish_reset(&mut self, method: DimmingMethod)
        ensures
            final(self).last_applied_dim_percent == Some(0i64),
            !final(self).needs_apply,
            final(self).active_method == (if method == DimmingMethod::Magnification { None } else { old(self).active_method }),
    {
        if method == DimmingMethod::Magnification {
            self.active_method = None;
        }
        self.last_applied_dim_percent = Some(0);
        self.needs_apply = false;
    }
}

/// A display as Windows reports it: its device name and its rectangle in pixels.
pub struct MonitorInfo {
    pub device_name: String,
    pub left: i32,
    pub top: i32,
    pub width: i32,
    pub height: i32,
}

pub open spec fn monitor_names(monitors: Seq<MonitorInfo>) -> Seq<Seq<char>> {
    Seq::new(monitors.len(), |i: int| monitors[i].device_name@)
}

pub open spec fn string_views(strings: Seq<String>) -> Seq<Seq<char>> {
    Seq::new(strings.len(), |i: int| strings[i]@)
}

/// The indices, in order, of the first `len` engine entries whose display is gone.
pub open spec fn removed_indices(existing: Seq<Seq<char>>, names: Seq<Seq<char>>, len: int) -> Seq<usize>
    decreases len,
{
    if len <= 0 {
        Seq::<usize>::empty()
    } else {
        let rest = removed_indices(existing, names, len - 1);
        if names.contains(existing[len - 1]) {
            rest
        } else {
            rest.push((len - 1) as usize)
        }
    }
}

/// The indices, in order, of the first `len` displays that need an engine entry:
/// those the engine lacks, each name taken at its first appearance.
pub open spec fn missing_indices(existing: Seq<Seq<char>>, names: Seq<Seq<char>>, len: int) -> Seq<usize>
    decreases len,
{
    if len <= 0 {
        Seq::<usize>::empty()
    } else {
        let rest = missing_indices(existing, names, len - 1);
        if existing.contains(names[len - 1]) || names.take(len - 1).contains(names[len - 1]) {
            rest
        } else {
            rest.push((len - 1) as usize)
        }
    }
}

/// How an engine's per-display entries follow the current displays.
pub struct MonitorSyncPlan {
    /// Entries (indices into the engine's names) whose display is gone.
    pub removed: Vec<usize>,
    /// Displays (indices into the display list) that need a new entry.
    pub missing: Vec<usize>,
    /// Whether the entries change at all: some entry goes or some display needs one.
    pub changed: bool,
}

fn contains_text(list: &Vec<String>, name: &String, upto: usize) -> (r: bool)
    requires
        upto <= list@.len(),
    ensures
        r == string_views(list@).take(upto as int).contains(name@),
{
    let ghost views = string_views(list@).take(upto as int);
    let mut i: usize = 0;
    while i < upto
        invariant
            upto <= list@.len(),
            views == string_views(list@).take(upto as int),
            i <= upto,
            forall|k: int| 0 <= k < i ==> views[k] != name@,
        decreases upto - i,
    {
        if list[i] == *name {
            assert(views[i as int] == name@);
            return true;
        }
        i = i + 1;
    }
    false
}

fn contains_monitor_name(monitors: &Vec<MonitorInfo>, name: &String, upto: usize) -> (r: bool)
    requires
        upto <= monitors@.len(),
    ensures
        r == monitor_names(monitors@).take(upto as int).contains(name@),
{
    let ghost views = monitor_names(monitors@).take(upto as int);
    let mut i: usize = 0;
    while i < upto
        invariant
            upto <= monitors@.len(),
            views == monitor_names(monitors@).take(upto as int),
            i <= upto,
            forall|k: int| 0 <= k < i ==> views[k] != name@,
        decreases upto - i,
    {
        if monitors[i].device_name == *name {
            assert(views[i as int] == name@);
            return true;
        }
        i = i + 1;
    }
    false
}

/// Compares the displays an engine has entries for with the current displays:
/// which entries to drop and which displays need a new entry.
pub fn plan_monitor_sync(existing: &Vec<String>, monitors: &Vec<MonitorInfo>) -> (r: MonitorSyncPlan)
    ensures
        r.removed@ == removed_indices(string_views(existing@), monitor_names(monitors@), existing@.len() as int),
        r.missing@ == missing_indices(string_views(existing@), monitor_names(monitors@), monitors@.len() as int),
        r.changed == (r.removed@.len() > 0 || r.missing@.len() > 0),
{
    let ghost ex = string_views(existing@);
    let ghost names = monitor_names(monitors@);
    let mut removed: Vec<usize> = Vec::new();
    let mut i: usize = 0;
    assert(names.take(monitors@.len() as int) =~= names);
    while i < existing.len()
        invariant
            ex == string_views(existing@),
            names == monitor_names(monitors@),
            names.take(monitors@.len() as int) == names,
            i <= existing@.len(),
            removed@ == removed_indices(ex, names, i as int),
        decreases existing.len() - i,
    {
        if !contains_monitor_name(monitors, &existing[i], monitors.len()) {
            removed.push(i);
        }
        i = i + 1;
    }
    let mut missing: Vec<usize> = Vec::new();
    let mut j: usize = 0;
    assert(ex.take(existing@.len() as int) =~= ex);
    while j < monitors.len()
        invariant
            ex == string_views(existing@),
            ex.take(existing@.len() as int) == ex,
            names == monitor_names(monitors@),
            j <= monitors@.len(),
            missing@ == missing_indices(ex, names, j as int),
        decreases monitors.len() - j,
    {
        let name = &monitors[j].device_name;
        let known = contains_text(existing, name, existing.len());
        let seen = contains_monitor_name(monitors, name, j);
        assert(names[j as int] == name@);
        if !known && !seen {
            missing.push(j);
        }
        j = j + 1;
    }
    let changed = removed.len() > 0 || missing.len() > 0;
    MonitorSyncPlan { removed, missing, changed }
}


/// Whether a gamma sync changed the devices in use: some device was dropped, or
/// some missing display had its device opened (`opened` holds, for each missing
/// display, whether its device opened).
pub fn gamma_sync_changed(removed: usize, opened: &Vec<bool>) -> (r: bool)
    ensures
        r == (removed > 0 || exists|k: int| 0 <= k < opened@.len() && opened@[k]),
{
    if removed > 0 {
        return true;
    }
    let mut i: usize = 0;
    while i < opened.len()
        invariant
            i <= opened@.len(),
            forall|k: int| 0 <= k < i ==> !opened@[k],
        decreases opened.len() - i,
    {
        if opened[i] {
            return true;
        }
        i = i + 1;
    }
    false
}

/// Gamma ramps rise along each channel, darken as the dim level rises, stay
/// within `u16`, and are the identity at no dimming.
pub proof fn law_gamma_ramp_shape(dim1: int, dim2: int, i: int, j: int)
    requires
        0 <= i <= j < 256,
    ensures
        gamma_value(dim1, i) <= gamma_value(dim1, j),
        clamp_dim(dim1) <= clamp_dim(dim2) ==> gamma_value(dim2, i) <= gamma_value(dim1, i),
        0 <= gamma_value(dim1, i) <= 65535,
        gamma_value(0, i) == i * 257,
{
    let b1 = 10000 - clamp_dim(dim1);
    let b2 = 10000 - clamp_dim(dim2);
    assert(0 <= b1 <= 10000 && 100 <= b1);
    assert((2 * i * 257 * b1 + 10000) / 20000 <= (2 * j * 257 * b1 + 10000) / 20000) by (nonlinear_arith)
        requires 0 <= i <= j, 0 <= b1;
    if b2 <= b1 {
        assert((2 * i * 257 * b2 + 10000) / 20000 <= (2 * i * 257 * b1 + 10000) / 20000) by (nonlinear_arith)
            requires 0 <= i, 0 <= b2 <= b1;
    }
    assert(0 <= (2 * i * 257 * b1 + 10000) / 20000 <= 65535) by (nonlinear_arith)
        requires 0 <= i < 256, 0 <= b1 <= 10000;
    assert((2 * i * 257 * 10000 + 10000) / 20000 == i * 257) by (nonlinear_arith)
        requires 0 <= i < 256;
}

/// The magnification matrix scales red, green and blue alike, darker as the dim
/// level rises, and is the identity at no dimming.
pub proof fn law_magnification_shape(dim1: int, dim2: int)
    ensures
        clamp_dim(dim1) < clamp_dim(dim2) ==> magnification_entry(10000 - clamp_dim(dim2), 0) < magnification_entry(10000 - clamp_dim(dim1), 0),
        magnification_entry(10000 - clamp_dim(dim1), 0) == magnification_entry(10000 - clamp_dim(dim1), 6),
        magnification_entry(10000 - clamp_dim(dim1), 6) == magnification_entry(10000 - clamp_dim(dim1), 12),
        forall|i: int| 0 <= i < 25 ==> #[trigger] magnification_entry(10000 - clamp_dim(0), i) == (if i % 6 == 0 { MAGNIFICATION_SCALE as int } else { 0 }),
{
}

/// A sync that repeats the previous one (same method, same level, displays
/// unchanged) after that one was applied without failure does not apply again;
/// a sync that switches methods always applies.
pub proof fn law_sync_applies_only_on_change(st: DimmingThreadState, method: DimmingMethod, dim_percent: i64, other: DimmingMethod)
    ensures
        ({
            let s1 = begin_sync_step(st, method).0;
            let s2 = should_apply_step(s1, dim_percent, false).0;
            let s3 = finish_apply_step(s2, dim_percent, false);
            let s4 = begin_sync_step(s3, method).0;
            !should_apply_step(s4, dim_percent, false).1
        }),
        st.active_method != Some(other) ==> should_apply_step(begin_sync_step(st, other).0, dim_percent, false).1,
{
}

proof fn lemma_missing_indices(existing: Seq<Seq<char>>, names: Seq<Seq<char>>, len: int)
    requires
        0 <= len <= names.len(),
        names.len() <= usize::MAX,
    ensures
        forall|x: usize| #[trigger] missing_indices(existing, names, len).contains(x) ==> x < len,
        forall|j: int| 0 <= j < len ==> (#[trigger] missing_indices(existing, names, len).contains(j as usize)
            <==> (!existing.contains(names[j]) && !names.take(j).contains(names[j]))),
    decreases len,
{
    if len > 0 {
        lemma_missing_indices(existing, names, len - 1);
        let rest = missing_indices(existing, names, len - 1);
        let pushed = rest.push((len - 1) as usize);
        assert forall|j: int| 0 <= j < len - 1 implies #[trigger] missing_indices(existing, names, len).contains(j as usize)
            == rest.contains(j as usize) by {
            if !(existing.contains(names[len - 1]) || names.take(len - 1).contains(names[len - 1])) {
                assert(pushed.contains(j as usize) ==> rest.contains(j as usize)) by {
                    if pushed.contains(j as usize) {
                        let i = choose|i: int| 0 <= i < pushed.len() && pushed[i] == j as usize;
                        if i < rest.len() {
                            assert(rest[i] == j as usize);
                        }
                    }
                }
                if rest.contains(j as usize) {
                    let i = choose|i: int| 0 <= i < rest.len() && rest[i] == j as usize;
                    assert(pushed[i] == j as usize);
                }
            }
        }
        if !(existing.contains(names[len - 1]) || names.take(len - 1).contains(names[len - 1])) {
            assert(pushed[rest.len() as int] == (len - 1) as usize);
            assert forall|x: usize| #[trigger] missing_indices(existing, names, len).contains(x) implies x < len by {
                let i = choose|i: int| 0 <= i < pushed.len() && pushed[i] == x;
                if i < rest.len() {
                    assert(rest.contains(rest[i]));
                }
            }
        } else {
            assert(!rest.contains((len - 1) as usize));
        }
    }
}

proof fn lemma_removed_indices(existing: Seq<Seq<char>>, names: Seq<Seq<char>>, len: int)
    requires
        0 <= len <= existing.len(),
        existing.len() <= usize::MAX,
    ensures
        forall|x: usize| #[trigger] removed_indices(existing, names, len).contains(x) ==> x < len,
        forall|i: int| 0 <= i < len ==> (#[trigger] removed_indices(existing, names, len).contains(i as usize)
            <==> !names.contains(existing[i])),
    decreases len,
{
    if len > 0 {
        lemma_removed_indices(existing, names, len - 1);
        let rest = removed_indices(existing, names, len - 1);
        let pushed = rest.push((len - 1) as usize);
        assert forall|j: int| 0 <= j < len - 1 implies #[trigger] removed_indices(existing, names, len).contains(j as usize)
            == rest.contains(j as usize) by {
            if !names.contains(existing[len - 1]) {
                if pushed.contains(j as usize) {
                    let i = choose|i: int| 0 <= i < pushed.len() && pushed[i] == j as usize;
                    if i < rest.len() {
                        assert(rest[i] == j as usize);
                    }
                }
                if rest.contains(j as usize) {
                    let i = choose|i: int| 0 <= i < rest.len() && rest[i] == j as usize;
                    assert(pushed[i] == j as usize);
                }
            }
        }
        if !names.contains(existing[len - 1]) {
            assert(pushed[rest.len() as int] == (len - 1) as usize);
            assert forall|x: usize| #[trigger] removed_indices(existing, names, len).contains(x) implies x < len by {
                let i = choose|i: int| 0 <= i < pushed.len() && pushed[i] == x;
                if i < rest.len() {
                    assert(rest.contains(rest[i]));
                }
            }
        } else {
            assert(!rest.contains((len - 1) as usize));
        }
    }
}

/// A sync keeps the entries in step with the displays: every display whose name
/// the engine lacks gets an entry (once, at its first appearance in the list),
/// every entry whose display is gone is dropped, and nothing else is touched.
pub proof fn law_monitor_sync_follows_the_displays(existing: Seq<Seq<char>>, names: Seq<Seq<char>>)
    requires
        existing.len() <= usize::MAX,
        names.len() <= usize::MAX,
    ensures
        forall|j: int| 0 <= j < names.len() ==> (#[trigger] missing_indices(existing, names, names.len() as int).contains(j as usize)
            <==> (!existing.contains(names[j]) && !names.take(j).contains(names[j]))),
        forall|x: usize| #[trigger] missing_indices(existing, names, names.len() as int).contains(x) ==> x < names.len(),
        forall|i: int| 0 <= i < existing.len() ==> (#[trigger] removed_indices(existing, names, existing.len() as int).contains(i as usize)
            <==> !names.contains(existing[i])),
        forall|x: usize| #[trigger] removed_indices(existing, names, existing.len() as int).contains(x) ==> x < existing.len(),
{
    lemma_missing_indices(existing, names, names.len() as int);
    lemma_removed_indices(existing, names, existing.len() as int);
}

} // verus!

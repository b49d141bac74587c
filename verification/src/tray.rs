use vstd::prelude::*;
use vstd::string::StringExecFns;

use crate::models::MAX_DIM;
use crate::schedule::{clamp, clamp_dim, clamp_dim_precise};
use crate::text::{decimal, push_decimal, string_from_chars};

verus! {

/// A monitor's work area in physical pixels: its top-left corner and its size.
#[derive(Clone, Copy, Debug, PartialEq, Eq, Structural)]
pub struct WorkArea {
    pub x: i32,
    pub y: i32,
    pub width: u32,
    pub height: u32,
}

/// A window's outer size in physical pixels.
#[derive(Clone, Copy, Debug, PartialEq, Eq, Structural)]
pub struct WindowSize {
    pub width: u32,
    pub height: u32,
}

/// A window position in physical pixels.
#[derive(Clone, Copy, Debug, PartialEq, Eq, Structural)]
pub struct WindowPosition {
    pub x: i32,
    pub y: i32,
}

/// `w as i32`: sizes beyond `i32::MAX` wrap around.
pub open spec fn wrap_i32(w: u32) -> int {
    if w <= 0x7fff_ffff {
        w as int
    } else {
        w - 0x1_0000_0000
    }
}

fn u32_as_i32(w: u32) -> (r: i32)
    ensures
        r == wrap_i32(w),
{
    if w <= 0x7fff_ffff {
        w as i32
    } else {
        let low: u32 = w - 0x8000_0000;
        (low as i32) - 0x7fff_ffff - 1
    }
}

/// Whether the corner arithmetic stays within `i32`.
pub open spec fn position_in_range(area: WorkArea, size: WindowSize) -> bool {
    &&& i32::MIN <= area.x + wrap_i32(area.width) <= i32::MAX
    &&& i32::MIN <= area.x + wrap_i32(area.width) - wrap_i32(size.width) <= i32::MAX
    &&& i32::MIN <= area.y + wrap_i32(area.height) <= i32::MAX
    &&& i32::MIN <= area.y + wrap_i32(area.height) - wrap_i32(size.height) <= i32::MAX
}

/// Where a window of the given size goes in the work area: flush with its
/// bottom-right corner, but never left of its left edge or above its top edge.
pub open spec fn bottom_right_position(area: WorkArea, size: WindowSize) -> (int, int) {
    let x = area.x + wrap_i32(area.width) - wrap_i32(size.width);
    let y = area.y + wrap_i32(area.height) - wrap_i32(size.height);
    (if x < area.x { area.x as int } else { x }, if y < area.y { area.y as int } else { y })
}

/// Places a window in the bottom-right corner of a work area; a window too large
/// for the area is pushed back to the area's left or top edge.
pub fn bottom_right_work_area_position(work_area: WorkArea, window_size: WindowSize) -> (r: WindowPosition)
    requires
        position_in_range(work_area, window_size),
    ensures
        (r.x as int, r.y as int) == bottom_right_position(work_area, window_size),
{
    let right_aligned_x = work_area.x + u32_as_i32(work_area.width) - u32_as_i32(window_size.width);
    let bottom_aligned_y = work_area.y + u32_as_i32(work_area.height) - u32_as_i32(window_size.height);
    let clamped_x = if right_aligned_x < work_area.x { work_area.x } else { right_aligned_x };
    let clamped_y = if bottom_aligned_y < work_area.y { work_area.y } else { bottom_aligned_y };
    WindowPosition { x: clamped_x, y: clamped_y }
}

pub open spec fn brightness_menu_prefix() -> Seq<char> {
    seq!['b', 'r', 'i', 'g', 'h', 't', 'n', 'e', 's', 's', '_']
}

/// The menu id of a brightness preset, such as `brightness_50`.
pub fn tray_brightness_menu_id(brightness_percent: u8) -> (r: String)
    ensures
        r@ == brightness_menu_prefix() + decimal(brightness_percent as nat),
{
    let mut chars: Vec<char> = Vec::new();
    chars.push('b');
    chars.push('r');
    chars.push('i');
    chars.push('g');
    chars.push('h');
    chars.push('t');
    chars.push('n');
    chars.push('e');
    chars.push('s');
    chars.push('s');
    chars.push('_');
    assert(chars@ =~= brightness_menu_prefix());
    push_decimal(&mut chars, brightness_percent as u64);
    string_from_chars(chars.as_slice())
}

/// The brightness shown for a dim level (given in hundredths of a percent):
/// 100% less the level, rounded to a whole percent, halves up.
pub open spec fn brightness_from_dim(dim_percent: int) -> int {
    (10000 - clamp_dim(dim_percent) + 50) / 100
}

/// The brightness, in whole percent, that the user sees for a dim level.
pub fn brightness_percent_from_dim(dim_percent: i64) -> (r: u8)
    ensures
        r == brightness_from_dim(dim_percent as int),
        1 <= r <= 100,
{
    let clamped = clamp_dim_precise(dim_percent);
    let brightness_hundredths: i64 = 10000 - clamped;
    ((brightness_hundredths + 50) / 100) as u8
}

/// The preset checked in the tray menu for a dim level: the brightness rounded
/// down to a multiple of ten, 10 for anything darker than 20%, 100 at full brightness.
pub open spec fn checked_preset(dim_percent: int) -> int {
    let brightness = (10000 - clamp_dim(dim_percent)) / 100;
    if brightness < 20 {
        10
    } else if brightness >= 100 {
        100
    } else {
        (brightness / 10) * 10
    }
}

pub fn checked_tray_brightness_preset(dim_percent: i64) -> (r: u8)
    ensures
        r == checked_preset(dim_percent as int),
        r % 10 == 0,
        10 <= r <= 100,
{
    let brightness: i64 = (10000 - clamp_dim_precise(dim_percent)) / 100;
    if brightness < 20 {
        return 10;
    }
    if brightness >= 100 {
        return 100;
    }
    ((brightness / 10) * 10) as u8
}

pub open spec fn tooltip_text(dim_percent: int) -> Seq<char> {
    "Dimsome - "@ + decimal(brightness_from_dim(dim_percent) as nat) + "%"@
}

/// The tray's hover text, such as `Dimsome - 50%`.
pub fn format_tray_tooltip(dim_percent: i64) -> (r: String)
    ensures
        r@ == tooltip_text(dim_percent as int),
{
    let mut digits: Vec<char> = Vec::new();
    push_decimal(&mut digits, brightness_percent_from_dim(dim_percent) as u64);
    assert(digits@ =~= decimal(brightness_from_dim(dim_percent as int) as nat));
    let number = string_from_chars(digits.as_slice());
    let mut text = String::from_str("Dimsome - ");
    text.append(number.as_str());
    text.append("%");
    text
}

/// The dim level, in hundredths of a percent, that a brightness preset (given in
/// hundredths of a percent of brightness) stands for, limited to 0%..=99%.
pub fn dim_for_brightness_preset(brightness: i64) -> (r: i64)
    ensures
        r == clamp(10000 - brightness, 0, MAX_DIM as int),
{
    if brightness > 10000 {
        0
    } else if brightness < 10000 - MAX_DIM {
        MAX_DIM
    } else {
        10000 - brightness
    }
}


/// A window that fits in the work area ends flush with its right and bottom
/// edges; any window starts at or right of the left edge and at or below the top.
pub proof fn law_window_stays_in_work_area(area: WorkArea, size: WindowSize)
    requires
        area.width <= 0x7fff_ffff,
        area.height <= 0x7fff_ffff,
        size.width <= 0x7fff_ffff,
        size.height <= 0x7fff_ffff,
    ensures
        bottom_right_position(area, size).0 >= area.x,
        bottom_right_position(area, size).1 >= area.y,
        size.width <= area.width ==> bottom_right_position(area, size).0 + size.width == area.x + area.width,
        size.height <= area.height ==> bottom_right_position(area, size).1 + size.height == area.y + area.height,
{
}


pub open spec fn preset_list() -> Seq<u8> {
    seq![100u8, 90u8, 80u8, 70u8, 60u8, 50u8, 40u8, 30u8, 20u8, 10u8]
}

/// The brightness presets offered in the tray menu, brightest first.
pub fn tray_brightness_presets() -> (r: Vec<u8>)
    ensures
        r@ == preset_list(),
{
    let mut r: Vec<u8> = Vec::new();
    let mut b: u8 = 100;
    while b >= 10
        invariant
            10 <= b + 10 <= 110,
            b % 10 == 0,
            r@.len() == (100 - b) / 10,
            forall|k: int| 0 <= k < r@.len() ==> #[trigger] r@[k] == 100 - 10 * k,
        decreases b,
    {
        r.push(b);
        b = b - 10;
    }
    assert(r@ =~= preset_list());
    r
}

/// Exactly one tray preset is checked for any dim level.
pub proof fn law_exactly_one_preset_checked(dim_percent: int)
    ensures
        exists|k: int| 0 <= k < 10 && preset_list()[k] == checked_preset(dim_percent),
        forall|j: int, k: int| 0 <= j < 10 && 0 <= k < 10 && preset_list()[j] == checked_preset(dim_percent)
            && preset_list()[k] == checked_preset(dim_percent) ==> j == k,
{
    let c = checked_preset(dim_percent);
    assert(c % 10 == 0 && 10 <= c <= 100);
    let k = (100 - c) / 10;
    assert(preset_list()[k] == c);
}

} // verus!

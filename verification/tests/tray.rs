use dimsome::tray::{
    bottom_right_work_area_position, brightness_percent_from_dim, checked_tray_brightness_preset,
    dim_for_brightness_preset, format_tray_tooltip, tray_brightness_menu_id, WindowSize, WorkArea,
};

fn work_area(x: i32, y: i32, width: u32, height: u32) -> WorkArea {
    WorkArea { x, y, width, height }
}

fn window_size(width: u32, height: u32) -> WindowSize {
    WindowSize { width, height }
}

/// A dim level in percent, as the library holds it (hundredths of a percent).
fn pct(value: f64) -> i64 {
    (value * 100.0).round() as i64
}

#[test]
fn positions_window_in_bottom_right_of_standard_work_area() {
    let position = bottom_right_work_area_position(work_area(0, 0, 1920, 1040), window_size(896, 602));

    assert_eq!(position.x, 1024);
    assert_eq!(position.y, 438);
}

#[test]
fn positions_window_in_bottom_right_of_offset_work_area() {
    let position = bottom_right_work_area_position(work_area(-1280, 0, 1280, 984), window_size(896, 602));

    assert_eq!(position.x, -896);
    assert_eq!(position.y, 382);
}

#[test]
fn clamps_oversized_window_to_work_area_origin() {
    let position = bottom_right_work_area_position(work_area(100, 200, 700, 500), window_size(896, 602));

    assert_eq!(position.x, 100);
    assert_eq!(position.y, 200);
}

#[test]
fn formats_tray_tooltip_for_full_brightness() {
    assert_eq!(format_tray_tooltip(pct(0.0)), "Dimsome - 100%");
}

#[test]
fn formats_tray_tooltip_for_half_brightness() {
    assert_eq!(format_tray_tooltip(pct(50.0)), "Dimsome - 50%");
}

#[test]
fn formats_tray_tooltip_for_near_minimum_brightness() {
    assert_eq!(format_tray_tooltip(pct(99.0)), "Dimsome - 1%");
}

#[test]
fn rounds_fractional_brightness_labels_for_tray_tooltip() {
    assert_eq!(format_tray_tooltip(pct(33.6)), "Dimsome - 66%");
}

#[test]
fn checks_full_brightness_preset_at_one_hundred_percent() {
    assert_eq!(checked_tray_brightness_preset(pct(0.0)), 100);
}

#[test]
fn checks_ninety_percent_preset_for_ninety_nine_percent_brightness() {
    assert_eq!(checked_tray_brightness_preset(pct(1.0)), 90);
}

#[test]
fn checks_forty_percent_preset_for_forty_five_percent_brightness() {
    assert_eq!(checked_tray_brightness_preset(pct(55.0)), 40);
}

#[test]
fn keeps_ten_percent_preset_for_exact_ten_percent_brightness() {
    assert_eq!(checked_tray_brightness_preset(pct(90.0)), 10);
}

#[test]
fn keeps_ten_percent_preset_for_five_percent_brightness() {
    assert_eq!(checked_tray_brightness_preset(pct(95.0)), 10);
}

#[test]
fn floors_fractional_brightness_to_the_lower_preset_bucket() {
    assert_eq!(checked_tray_brightness_preset(pct(9.1)), 90);
    assert_eq!(checked_tray_brightness_preset(pct(10.0)), 90);
}

#[test]
fn brightness_labels_round_halves_up_and_stay_in_range() {
    assert_eq!(brightness_percent_from_dim(pct(33.5)), 67);
    assert_eq!(brightness_percent_from_dim(pct(-20.0)), 100);
    assert_eq!(brightness_percent_from_dim(pct(150.0)), 1);
}

#[test]
fn presets_for_out_of_range_levels() {
    assert_eq!(checked_tray_brightness_preset(pct(-5.0)), 100);
    assert_eq!(checked_tray_brightness_preset(pct(120.0)), 10);
    assert_eq!(checked_tray_brightness_preset(pct(80.5)), 10);
    assert_eq!(checked_tray_brightness_preset(pct(79.0)), 20);
}

#[test]
fn brightness_menu_ids_carry_the_percentage() {
    assert_eq!(tray_brightness_menu_id(100), "brightness_100");
    assert_eq!(tray_brightness_menu_id(10), "brightness_10");
    assert_eq!(tray_brightness_menu_id(0), "brightness_0");
}

#[test]
fn brightness_presets_map_back_to_dim_levels() {
    assert_eq!(dim_for_brightness_preset(pct(100.0)), 0);
    assert_eq!(dim_for_brightness_preset(pct(40.0)), pct(60.0));
    assert_eq!(dim_for_brightness_preset(pct(0.0)), pct(99.0));
}

#[test]
fn window_fitting_the_work_area_ends_flush_with_its_corner() {
    let area = work_area(10, 20, 1000, 800);
    let size = window_size(300, 200);
    let position = bottom_right_work_area_position(area, size);
    assert_eq!(position.x + 300, 10 + 1000);
    assert_eq!(position.y + 200, 20 + 800);
}

use monitor_layout::monitor::{Monitor, Position, Resolution};

fn mode(w: i32, h: i32, mhz: u32, preferred: bool, current: bool) -> Resolution {
    Resolution { width: w, height: h, refresh_mhz: mhz, preferred, current }
}

fn monitor(
    name: &str,
    enabled: bool,
    modes: Vec<Resolution>,
    position: Option<(i32, i32)>,
    scale_milli: Option<u32>,
    transform: Option<&str>,
) -> Monitor {
    Monitor {
        name: name.to_string(),
        description: None,
        enabled,
        modes,
        position: position.map(|(x, y)| Position { x, y }),
        scale_milli,
        transform: transform.map(|t| t.to_string()),
        saved_position: None,
        saved_scale_milli: None,
    }
}

#[test]
fn footprint_unswapped_for_normal_and_half_turn() {
    for tag in [None, Some("180")] {
        let m = monitor(
            "DP-1",
            true,
            vec![mode(1920, 1080, 60000, true, true)],
            Some((10, 20)),
            None,
            tag,
        );
        let (x, y, w, h) = m.get_geometry();
        assert_eq!((x, y), (10, 20));
        assert_eq!((w, h), (1920, 1080));
    }
}

#[test]
fn footprint_swapped_for_quarter_turns() {
    for tag in [Some("90"), Some("270")] {
        let m = monitor(
            "DP-1",
            true,
            vec![mode(1920, 1080, 60000, true, true)],
            Some((0, 0)),
            None,
            tag,
        );
        let (_, _, w, h) = m.get_geometry();
        assert_eq!((w, h), (1080, 1920));
    }
}

#[test]
fn footprint_divides_by_scale_after_rotation() {
    let m = monitor(
        "DP-1",
        true,
        vec![mode(1920, 1080, 60000, true, true)],
        Some((0, 0)),
        Some(2000),
        Some("90"),
    );
    let (_, _, w, h) = m.get_geometry();
    assert_eq!((w, h), (540, 960));
}

#[test]
fn footprint_zero_when_no_resolution_resolves() {
    let m = monitor("DP-1", true, vec![mode(1920, 1080, 60000, false, false)], None, None, None);
    assert_eq!(m.get_geometry(), (0, 0, 0, 0));
}

#[test]
fn canvas_of_no_enabled_monitors_is_margined_sentinels() {
    let mons: Vec<Monitor> = vec![];
    let c = Monitor::get_monitors_canvas(&mons);
    assert_eq!(c.x_bounds, [9950, -9950]);
    assert_eq!(c.y_bounds, [9950, -9950]);
    assert_eq!(c.top, -9950);
    assert_eq!(c.offset_y, 0);
}

#[test]
fn canvas_of_one_monitor() {
    let mons = vec![monitor(
        "DP-1",
        true,
        vec![mode(1920, 1080, 60000, true, true)],
        Some((0, 0)),
        Some(1000),
        None,
    )];
    let c = Monitor::get_monitors_canvas(&mons);
    assert_eq!(c.x_bounds, [-50, 1970]);
    assert_eq!(c.y_bounds, [-50, 1130]);
    assert_eq!(c.top, 1130);
    assert_eq!(c.offset_y, 50);
}

#[test]
fn canvas_follows_far_out_monitors() {
    // an arrangement wholly beyond the degenerate extremes still
    // bounds tightly around its footprints
    let mons = vec![monitor(
        "DP-1",
        true,
        vec![mode(1920, 1080, 60000, true, true)],
        Some((20000, 0)),
        Some(1000),
        None,
    )];
    let c = Monitor::get_monitors_canvas(&mons);
    assert_eq!(c.x_bounds, [19950, 21970]);
    assert_eq!(c.y_bounds, [-50, 1130]);
    let far_low = vec![monitor(
        "DP-2",
        true,
        vec![mode(800, 600, 60000, true, true)],
        Some((-30000, -20000)),
        Some(1000),
        None,
    )];
    let c2 = Monitor::get_monitors_canvas(&far_low);
    assert_eq!(c2.x_bounds, [-30050, -29150]);
    assert_eq!(c2.y_bounds, [-20050, -19350]);
    assert_eq!(c2.offset_y, 20050);
}

#[test]
fn canvas_defaults_missing_scale_to_one() {
    let mons = vec![monitor(
        "DP-1",
        true,
        vec![mode(1920, 1080, 60000, true, true)],
        Some((0, 0)),
        None,
        None,
    )];
    let c = Monitor::get_monitors_canvas(&mons);
    assert_eq!(c.x_bounds, [-50, 1970]);
    assert_eq!(c.y_bounds, [-50, 1130]);
}

#[test]
fn canvas_ignores_disabled_monitors() {
    let enabled = monitor(
        "DP-1",
        true,
        vec![mode(1920, 1080, 60000, true, true)],
        Some((0, 0)),
        Some(1000),
        None,
    );
    let disabled = monitor(
        "HDMI-1",
        false,
        vec![mode(9999, 9999, 60000, true, true)],
        Some((-50000, 70000)),
        Some(1000),
        None,
    );
    let alone = Monitor::get_monitors_canvas(&vec![enabled.clone()]);
    let with_disabled =
        Monitor::get_monitors_canvas(&vec![disabled.clone(), enabled, disabled.clone()]);
    assert_eq!(alone.x_bounds, with_disabled.x_bounds);
    assert_eq!(alone.y_bounds, with_disabled.y_bounds);
    assert_eq!(alone.top, with_disabled.top);
    assert_eq!(alone.offset_y, with_disabled.offset_y);
}

#[test]
fn offset_is_negated_bottom_when_negative() {
    // bottom after margin: 20 - 50 = -30, so the offset is 30
    let mons = vec![monitor(
        "DP-1",
        true,
        vec![mode(800, 600, 60000, true, true)],
        Some((0, 20)),
        Some(1000),
        None,
    )];
    let c = Monitor::get_monitors_canvas(&mons);
    assert_eq!(c.y_bounds[0], -30);
    assert_eq!(c.offset_y, 30);
}

#[test]
fn offset_is_zero_when_bottom_non_negative() {
    // bottom after margin: 70 - 50 = 20, so no offset
    let mons = vec![monitor(
        "DP-1",
        true,
        vec![mode(800, 600, 60000, true, true)],
        Some((0, 70)),
        Some(1000),
        None,
    )];
    let c = Monitor::get_monitors_canvas(&mons);
    assert_eq!(c.y_bounds[0], 20);
    assert_eq!(c.offset_y, 0);
}

#[test]
fn serialize_enabled_monitor() {
    let m = monitor(
        "DP-1",
        true,
        vec![mode(1920, 1080, 60000, true, true)],
        Some((0, 0)),
        Some(1000),
        None,
    );
    assert_eq!(m.to_hyprland_config(), "monitor = DP-1, 1920x1080@60, 0x0, 1, transform,0");
}

#[test]
fn serialize_uses_defaults_and_rotation() {
    let m = monitor(
        "HDMI-1",
        true,
        vec![mode(2560, 1440, 59999, false, true)],
        Some((-1920, 0)),
        None,
        Some("270"),
    );
    assert_eq!(
        m.to_hyprland_config(),
        "monitor = HDMI-1, 2560x1440@59.999, -1920x0, 1, transform,3"
    );
}

#[test]
fn serialize_fractional_scale() {
    let m = monitor(
        "DP-2",
        true,
        vec![mode(2880, 1800, 90000, true, true)],
        Some((0, 0)),
        Some(1500),
        None,
    );
    assert_eq!(m.to_hyprland_config(), "monitor = DP-2, 2880x1800@90, 0x0, 1.5, transform,0");
}

#[test]
fn serialize_disabled_monitor_is_minimal() {
    let m = monitor("DP-1", false, vec![mode(1920, 1080, 60000, true, false)], None, None, None);
    assert_eq!(m.to_hyprland_config(), "monitor = DP-1, disabled");
}

#[test]
fn config_text_is_one_line_per_monitor() {
    let a = monitor(
        "DP-1",
        true,
        vec![mode(1920, 1080, 60000, true, true)],
        Some((0, 0)),
        Some(1000),
        None,
    );
    let b = monitor("HDMI-1", false, vec![], None, None, None);
    let text = monitor_layout::codec::hyprland_config_text(&vec![a, b]);
    assert_eq!(
        text,
        "monitor = DP-1, 1920x1080@60, 0x0, 1, transform,0\nmonitor = HDMI-1, disabled\n"
    );
}

#[test]
fn round_trip_of_enabled_monitor() {
    let m = monitor(
        "DP-1",
        true,
        vec![mode(1280, 720, 60000, false, false), mode(1920, 1080, 60000, true, false)],
        Some((0, 0)),
        Some(1000),
        None,
    );
    let mut m2 = m.clone();
    m2.modes[1].current = true;
    let line = m2.to_hyprland_config();
    let mut target = vec![monitor(
        "DP-1",
        false,
        vec![mode(1280, 720, 60000, false, false), mode(1920, 1080, 60000, true, false)],
        None,
        None,
        None,
    )];
    monitor_layout::codec::apply_hyprland_config(&line, &mut target);
    let t = &target[0];
    assert!(t.enabled);
    assert!(!t.modes[0].current);
    assert!(t.modes[1].current);
    assert_eq!(t.position, Some(Position { x: 0, y: 0 }));
    assert_eq!(t.scale_milli, Some(1000));
    assert_eq!(t.transform.as_deref(), Some("normal"));
}

#[test]
fn parse_disabled_line_touches_only_enabled_flag() {
    let mut mons = vec![monitor(
        "DP-1",
        true,
        vec![mode(1920, 1080, 60000, true, true)],
        Some((30, 40)),
        Some(1250),
        Some("90"),
    )];
    monitor_layout::codec::apply_hyprland_config("monitor = DP-1, disabled", &mut mons);
    let m = &mons[0];
    assert!(!m.enabled);
    assert_eq!(m.modes.len(), 1);
    assert!(m.modes[0].current);
    assert_eq!(m.position, Some(Position { x: 30, y: 40 }));
    assert_eq!(m.scale_milli, Some(1250));
    assert_eq!(m.transform.as_deref(), Some("90"));
}

#[test]
fn parse_unknown_name_is_noop() {
    let before = vec![monitor(
        "DP-1",
        true,
        vec![mode(1920, 1080, 60000, true, true)],
        Some((0, 0)),
        Some(1000),
        None,
    )];
    let mut mons = before.clone();
    monitor_layout::codec::apply_hyprland_config(
        "monitor = HDMI-9, 1920x1080@60, 0x0, 1, transform,0",
        &mut mons,
    );
    assert_eq!(mons.len(), 1);
    assert_eq!(mons[0].name, before[0].name);
    assert_eq!(mons[0].enabled, before[0].enabled);
    assert_eq!(mons[0].position, before[0].position);
    assert_eq!(mons[0].scale_milli, before[0].scale_milli);
}

#[test]
fn parse_selects_matching_mode_short_form() {
    let mut mons = vec![monitor(
        "DP-1",
        false,
        vec![mode(1280, 720, 60000, false, true), mode(1920, 1080, 60000, true, false)],
        None,
        None,
        None,
    )];
    monitor_layout::codec::apply_hyprland_config("monitor = DP-1, 1920x1080", &mut mons);
    assert!(mons[0].enabled);
    assert!(!mons[0].modes[0].current);
    assert!(mons[0].modes[1].current);
}

#[test]
fn parse_preferred_selects_first_preferred_mode() {
    let mut mons = vec![monitor(
        "DP-1",
        false,
        vec![mode(1280, 720, 60000, false, true), mode(1920, 1080, 60000, true, false)],
        None,
        None,
        None,
    )];
    monitor_layout::codec::apply_hyprland_config("monitor = DP-1, preferred", &mut mons);
    assert!(!mons[0].modes[0].current);
    assert!(mons[0].modes[1].current);
}

#[test]
fn parse_unmatched_resolution_leaves_selection() {
    let mut mons = vec![monitor(
        "DP-1",
        false,
        vec![mode(1280, 720, 60000, false, true)],
        None,
        None,
        None,
    )];
    monitor_layout::codec::apply_hyprland_config("monitor = DP-1, 640x480@60", &mut mons);
    assert!(mons[0].enabled);
    assert!(mons[0].modes[0].current);
}

#[test]
fn parse_position_is_all_or_nothing() {
    let mut mons = vec![monitor(
        "DP-1",
        false,
        vec![mode(1920, 1080, 60000, true, true)],
        None,
        None,
        None,
    )];
    monitor_layout::codec::apply_hyprland_config(
        "monitor = DP-1, 1920x1080@60, 12xoops",
        &mut mons,
    );
    assert!(mons[0].position.is_none());
    monitor_layout::codec::apply_hyprland_config(
        "monitor = DP-1, 1920x1080@60, -1920x270",
        &mut mons,
    );
    assert_eq!(mons[0].position, Some(Position { x: -1920, y: 270 }));
}

#[test]
fn parse_scale_field() {
    let mut mons = vec![monitor(
        "DP-1",
        false,
        vec![mode(1920, 1080, 60000, true, true)],
        None,
        None,
        None,
    )];
    monitor_layout::codec::apply_hyprland_config(
        "monitor = DP-1, 1920x1080@60, 0x0, 1.5",
        &mut mons,
    );
    assert_eq!(mons[0].scale_milli, Some(1500));
    monitor_layout::codec::apply_hyprland_config(
        "monitor = DP-1, 1920x1080@60, 0x0, bogus",
        &mut mons,
    );
    assert_eq!(mons[0].scale_milli, Some(1500));
    monitor_layout::codec::apply_hyprland_config(
        "monitor = DP-1, 1920x1080@60, 0x0, +1.25",
        &mut mons,
    );
    assert_eq!(mons[0].scale_milli, Some(1250));
}

#[test]
fn parse_transform_fields() {
    let mut mons = vec![monitor(
        "DP-1",
        false,
        vec![mode(1920, 1080, 60000, true, true)],
        None,
        None,
        None,
    )];
    monitor_layout::codec::apply_hyprland_config(
        "monitor = DP-1, 1920x1080@60, 0x0, 1, transform, 1",
        &mut mons,
    );
    assert_eq!(mons[0].transform.as_deref(), Some("90"));
    monitor_layout::codec::apply_hyprland_config(
        "monitor = DP-1, 1920x1080@60, 0x0, 1, transform, 7",
        &mut mons,
    );
    assert_eq!(mons[0].transform.as_deref(), Some("normal"));
    monitor_layout::codec::apply_hyprland_config(
        "monitor = DP-1, 1920x1080@60, 0x0, 1, transform, oops",
        &mut mons,
    );
    assert_eq!(mons[0].transform.as_deref(), Some("normal"));
}

#[test]
fn parse_skips_non_directive_and_short_lines() {
    let before = vec![monitor(
        "DP-1",
        true,
        vec![mode(1920, 1080, 60000, true, true)],
        Some((0, 0)),
        Some(1000),
        None,
    )];
    let mut mons = before.clone();
    monitor_layout::codec::apply_hyprland_config(
        "# a comment\n\nmonitor = DP-1\nexec-once = bar",
        &mut mons,
    );
    assert_eq!(mons[0].enabled, before[0].enabled);
    assert_eq!(mons[0].position, before[0].position);
    assert_eq!(mons[0].scale_milli, before[0].scale_milli);
}

#[test]
fn parse_accepts_compact_spacing() {
    let mut mons = vec![monitor(
        "DP-1",
        true,
        vec![mode(1920, 1080, 60000, true, true)],
        Some((0, 0)),
        Some(1000),
        None,
    )];
    monitor_layout::codec::apply_hyprland_config("  monitor=DP-1,disabled  ", &mut mons);
    assert!(!mons[0].enabled);
}

#[test]
fn parse_whole_config_merges_line_by_line() {
    let mut mons = vec![
        monitor(
            "DP-1",
            false,
            vec![mode(1920, 1080, 60000, true, false)],
            None,
            None,
            None,
        ),
        monitor(
            "HDMI-1",
            true,
            vec![mode(1280, 720, 60000, true, true)],
            Some((0, 0)),
            Some(1000),
            None,
        ),
    ];
    let text = "monitor = DP-1, 1920x1080@60, 100x-200, 2, transform, 3\nmonitor = HDMI-1, disabled\n";
    monitor_layout::codec::apply_hyprland_config(text, &mut mons);
    assert!(mons[0].enabled);
    assert!(mons[0].modes[0].current);
    assert_eq!(mons[0].position, Some(Position { x: 100, y: -200 }));
    assert_eq!(mons[0].scale_milli, Some(2000));
    assert_eq!(mons[0].transform.as_deref(), Some("270"));
    assert!(!mons[1].enabled);
}

use monitor_layout::monitor::{Monitor, Position, Resolution};
use monitor_layout::rotation::Rotation;

fn mode(w: i32, h: i32, mhz: u32, preferred: bool, current: bool) -> Resolution {
    Resolution { width: w, height: h, refresh_mhz: mhz, preferred, current }
}

fn bare_monitor(name: &str, modes: Vec<Resolution>) -> Monitor {
    Monitor {
        name: name.to_string(),
        description: None,
        enabled: false,
        modes,
        position: None,
        scale_milli: None,
        transform: None,
        saved_position: None,
        saved_scale_milli: None,
    }
}

#[test]
fn from_transform_maps_tags() {
    assert_eq!(Rotation::from_transform(&Some("90".to_string())), Rotation::Deg90);
    assert_eq!(Rotation::from_transform(&Some("180".to_string())), Rotation::Deg180);
    assert_eq!(Rotation::from_transform(&Some("270".to_string())), Rotation::Deg270);
    assert_eq!(Rotation::from_transform(&Some("flipped".to_string())), Rotation::Normal);
    assert_eq!(Rotation::from_transform(&None), Rotation::Normal);
}

#[test]
fn to_transform_is_inverse_textual_mapping() {
    assert_eq!(Rotation::Normal.to_transform(), "normal");
    assert_eq!(Rotation::Deg90.to_transform(), "90");
    assert_eq!(Rotation::Deg180.to_transform(), "180");
    assert_eq!(Rotation::Deg270.to_transform(), "270");
}

#[test]
fn to_hyprland_integer_encoding() {
    assert_eq!(Rotation::Normal.to_hyprland(), 0);
    assert_eq!(Rotation::Deg90.to_hyprland(), 1);
    assert_eq!(Rotation::Deg180.to_hyprland(), 2);
    assert_eq!(Rotation::Deg270.to_hyprland(), 3);
}

#[test]
fn cycle_four_times_returns_to_start() {
    for start in [Rotation::Normal, Rotation::Deg90, Rotation::Deg180, Rotation::Deg270] {
        let mut r = start;
        for _ in 0..4 {
            r = r.cycle();
        }
        assert_eq!(r, start);
    }
}

#[test]
fn cycle_order_is_fixed() {
    assert_eq!(Rotation::Normal.cycle(), Rotation::Deg90);
    assert_eq!(Rotation::Deg90.cycle(), Rotation::Deg180);
    assert_eq!(Rotation::Deg180.cycle(), Rotation::Deg270);
    assert_eq!(Rotation::Deg270.cycle(), Rotation::Normal);
}

#[test]
fn rotation_default_is_normal() {
    assert_eq!(Rotation::default(), Rotation::Normal);
}

#[test]
fn current_resolution_finds_flagged_mode() {
    let m = bare_monitor(
        "DP-1",
        vec![mode(1280, 720, 60000, false, false), mode(1920, 1080, 60000, true, true)],
    );
    let cur = m.get_current_resolution().expect("current mode");
    assert_eq!(cur.width, 1920);
    assert_eq!(cur.height, 1080);
}

#[test]
fn current_resolution_none_when_unflagged() {
    let m = bare_monitor("DP-1", vec![mode(1280, 720, 60000, true, false)]);
    assert!(m.get_current_resolution().is_none());
}

#[test]
fn preferred_resolution_takes_first_flagged() {
    let m = bare_monitor(
        "DP-1",
        vec![
            mode(1280, 720, 60000, false, false),
            mode(1920, 1080, 60000, true, false),
            mode(2560, 1440, 60000, true, false),
        ],
    );
    let p = m.get_prefered_resolution().expect("preferred mode");
    assert_eq!(p.width, 1920);
}

#[test]
fn effective_mode_prefers_current_then_preferred() {
    let mut m = bare_monitor(
        "DP-1",
        vec![mode(1280, 720, 60000, true, false), mode(1920, 1080, 60000, false, true)],
    );
    assert_eq!(m.effective_mode().map(|r| r.width), Some(1920));
    m.modes[1].current = false;
    assert_eq!(m.effective_mode().map(|r| r.width), Some(1280));
    m.modes[0].preferred = false;
    assert!(m.effective_mode().is_none());
}

#[test]
fn set_current_resolution_moves_flag() {
    let mut m = bare_monitor(
        "DP-1",
        vec![mode(1280, 720, 60000, false, true), mode(1920, 1080, 60000, true, false)],
    );
    assert!(m.set_current_resolution(1));
    assert!(!m.modes[0].current);
    assert!(m.modes[1].current);
}

#[test]
fn set_current_resolution_out_of_bounds_is_reported_noop() {
    let mut m = bare_monitor(
        "DP-1",
        vec![mode(1280, 720, 60000, false, true), mode(1920, 1080, 60000, true, false)],
    );
    let ok = m.set_current_resolution(m.modes.len());
    assert!(!ok);
    assert!(m.modes[0].current);
    assert!(!m.modes[1].current);
}

#[test]
fn move_monitor_with_position() {
    let mut m = bare_monitor("DP-1", vec![]);
    m.position = Some(Position { x: 100, y: 200 });
    m.move_horizontal(-30);
    m.move_vertical(50);
    let p = m.position.unwrap();
    assert_eq!(p.x, 70);
    assert_eq!(p.y, 250);
}

#[test]
fn move_monitor_without_position_is_noop() {
    let mut m = bare_monitor("DP-1", vec![]);
    m.move_horizontal(10);
    m.move_vertical(10);
    assert!(m.position.is_none());
}
